//! What the findings say: each thing that is wrong is told, by its name.
use vstd::prelude::*;

use super::composition::{
    banned_finding, boundary_finding, boundary_findings, composition_findings, delegation_finding,
    has_spec, is_member, leak_finding, member_findings, outward_findings, ownership_findings,
    subscription_finding, subscription_findings, subsystem_findings, target_exists,
    unmatched_finding,
};
use super::constraints::{constraint_findings, entity_context, entity_findings};
use super::module::module_findings;
use super::protocol::{
    dead_end_findings, has_function, pair_findings, protocol_error, protocol_findings,
    terminal_findings, transition_findings, unknown_state, unreachable_findings,
};
use super::verdict::is_accounted_for;
use super::{
    architectural_findings, collected, conflict_finding, conflict_findings, dependency_findings,
    dependency_violations, error_finding, event_findings, expose_findings, forbidden_finding,
    forbidden_findings, foreign_state_findings, import_findings, missing_findings, state_findings,
    violation_finding, violation_findings, warning_finding, without_spaces, ConstraintKind,
    ConstraintResultModel, ConstraintSeverity, SpecCheckerModel, VerificationTier,
};
use crate::data::{has_key, lookup};
use crate::dependency::{cross_ref, listed, DependencyGraphModel};
use crate::extractors::ExtractedModuleModel;
use crate::rules::{RuleViolationModel, Severity};
use crate::smt::SolverReply;
use crate::spec::{ModuleSpecModel, ProtocolSpecModel, SubsystemSpecModel, TransitionModel};
use crate::text;
use crate::type_formula::ast::FormulaModel;
use crate::type_formula::eval::eval_formula;
use crate::type_formula::parser::formula_reading;

verus! {

/// Whether a direct comparison found something.
pub open spec fn tells(
    findings: Seq<ConstraintResultModel>,
    kind: ConstraintKind,
    severity: ConstraintSeverity,
    message: Seq<char>,
) -> bool {
    findings.contains(
        ConstraintResultModel { kind, tier: VerificationTier::Syntactic, severity, message },
    )
}

proof fn lemma_either(
    a: Seq<ConstraintResultModel>,
    b: Seq<ConstraintResultModel>,
    x: ConstraintResultModel,
)
    ensures
        (a + b).contains(x) <==> a.contains(x) || b.contains(x),
{
    let all = a + b;
    if a.contains(x) {
        let i = choose|i: int| 0 <= i < a.len() && a[i] == x;
        assert(all[i] == x);
    }
    if b.contains(x) {
        let i = choose|i: int| 0 <= i < b.len() && b[i] == x;
        assert(all[a.len() + i] == x);
    }
    if all.contains(x) {
        let i = choose|i: int| 0 <= i < all.len() && all[i] == x;
        if i < a.len() {
            assert(a[i] == x);
        } else {
            assert(b[i - a.len()] == x);
        }
    }
}

proof fn lemma_each<T>(
    items: Seq<T>,
    f: spec_fn(T) -> Seq<ConstraintResultModel>,
    i: int,
    x: ConstraintResultModel,
)
    requires
        0 <= i < items.len(),
        f(items[i]).contains(x),
    ensures
        collected(items, f).contains(x),
    decreases items.len(),
{
    let front = items.drop_last();
    lemma_either(collected(front, f), f(items.last()), x);
    if i < front.len() {
        lemma_each(front, f, i, x);
    }
}

proof fn lemma_parts(
    c: SpecCheckerModel,
    spec: ModuleSpecModel,
    m: ExtractedModuleModel,
    x: ConstraintResultModel,
)
    ensures
        module_findings(c, spec, m).contains(x) <==> collected(
            spec.exposes,
            expose_findings(m),
        ).contains(x) || dependency_findings(spec, m).contains(x) || collected(
            m.imports,
            forbidden_findings(spec),
        ).contains(x) || collected(spec.depends_on, architectural_findings(c, spec)).contains(x)
            || event_findings(spec, m).contains(x) || collected(
            spec.exposes,
            entity_findings(m),
        ).contains(x) || state_findings(c, spec, m).contains(x) || protocol_findings(
            spec,
            m,
        ).contains(x),
{
    let p1 = collected(spec.exposes, expose_findings(m));
    let p2 = dependency_findings(spec, m);
    let p3 = collected(m.imports, forbidden_findings(spec));
    let p4 = collected(spec.depends_on, architectural_findings(c, spec));
    let p5 = event_findings(spec, m);
    let p6 = collected(spec.exposes, entity_findings(m));
    let p7 = state_findings(c, spec, m);
    let p8 = protocol_findings(spec, m);
    lemma_either(p1, p2, x);
    lemma_either(p1 + p2, p3, x);
    lemma_either(p1 + p2 + p3, p4, x);
    lemma_either(p1 + p2 + p3 + p4, p5, x);
    lemma_either(p1 + p2 + p3 + p4 + p5, p6, x);
    lemma_either(p1 + p2 + p3 + p4 + p5 + p6, p7, x);
    lemma_either(p1 + p2 + p3 + p4 + p5 + p6 + p7, p8, x);
}

proof fn lemma_single(x: ConstraintResultModel)
    ensures
        seq![x].contains(x),
{
    assert(seq![x][0] == x);
}

// ─── Interfaces ───────────────────────────────────────────────────────────────

/// Each entity that is to be exposed and is not is told: a type that is not defined, a variable
/// that is no state, a function that is private or missing.
pub proof fn missing_entities_are_told(
    c: SpecCheckerModel,
    spec: ModuleSpecModel,
    m: ExtractedModuleModel,
    i: int,
)
    requires
        0 <= i < spec.exposes.len(),
    ensures
        ({
            let name = spec.exposes[i].0;
            let kind = spec.exposes[i].1.kind;
            let all = module_findings(c, spec, m);
            let is_function = kind != Some("type"@) && kind != Some("variable"@)
                && !m.public_functions.contains(name);
            &&& kind == Some("type"@) && !has_key(m.type_definitions, name) ==> tells(
                all,
                ConstraintKind::Structure,
                ConstraintSeverity::Error,
                "Type '"@ + name + "' is specified as exposed but not found in implementation"@,
            )
            &&& kind == Some("variable"@) && !m.state_variables.contains(name) ==> tells(
                all,
                ConstraintKind::Structure,
                ConstraintSeverity::Error,
                "Variable '"@ + name + "' is specified as exposed but not found in implementation"@,
            )
            &&& is_function && m.private_functions.contains(name) ==> tells(
                all,
                ConstraintKind::Structure,
                ConstraintSeverity::Error,
                "Function '"@ + name
                    + "' is specified as exposed but is private/internal in implementation"@,
            )
            &&& is_function && !m.private_functions.contains(name) ==> tells(
                all,
                ConstraintKind::Structure,
                ConstraintSeverity::Error,
                "Function '"@ + name + "' is specified as exposed but not found in implementation"@,
            )
        }),
{
    let entry = spec.exposes[i];
    reveal_strlit("type");
    reveal_strlit("variable");
    assert("type"@.len() != "variable"@.len());
    let found = expose_findings(m)(entry);
    if found.len() == 1 {
        lemma_single(found[0]);
        assert(found =~= seq![found[0]]);
        lemma_each(spec.exposes, expose_findings(m), i, found[0]);
        lemma_parts(c, spec, m, found[0]);
    }
}

/// Each public function whose signature differs from the one that is specified, in more than
/// blanks, is told with both.
pub proof fn other_signatures_are_told(
    c: SpecCheckerModel,
    spec: ModuleSpecModel,
    m: ExtractedModuleModel,
    i: int,
)
    requires
        0 <= i < spec.exposes.len(),
        spec.exposes[i].1.kind != Some("type"@),
        spec.exposes[i].1.kind != Some("variable"@),
        m.public_functions.contains(spec.exposes[i].0),
        spec.exposes[i].1.signature is Some,
        lookup(m.function_signatures, spec.exposes[i].0) is Some,
        without_spaces(spec.exposes[i].1.signature->Some_0) != without_spaces(
            lookup(m.function_signatures, spec.exposes[i].0)->Some_0,
        ),
    ensures
        tells(
            module_findings(c, spec, m),
            ConstraintKind::Structure,
            ConstraintSeverity::Warning,
            "Function '"@ + spec.exposes[i].0 + "' signature mismatch:\n  spec: "@
                + spec.exposes[i].1.signature->Some_0 + "\n  impl: "@ + lookup(
                m.function_signatures,
                spec.exposes[i].0,
            )->Some_0,
        ),
{
    let found = expose_findings(m)(spec.exposes[i]);
    lemma_single(found[0]);
    assert(found =~= seq![found[0]]);
    lemma_each(spec.exposes, expose_findings(m), i, found[0]);
    lemma_parts(c, spec, m, found[0]);
}

// ─── Imports ──────────────────────────────────────────────────────────────────

/// Each import that a spec with dependencies does not account for is told, and each that matches
/// something forbidden, with what it matches.
pub proof fn imports_are_told(
    c: SpecCheckerModel,
    spec: ModuleSpecModel,
    m: ExtractedModuleModel,
    i: int,
    k: int,
)
    requires
        0 <= i < m.imports.len(),
    ensures
        spec.depends_on.len() > 0 && !is_accounted_for(m.imports[i], spec) ==> tells(
            module_findings(c, spec, m),
            ConstraintKind::Dependency,
            ConstraintSeverity::Warning,
            "Import '"@ + m.imports[i] + "' not in depends_on or external_deps"@,
        ),
        0 <= k < spec.forbidden_deps.len() && text::contains(m.imports[i], spec.forbidden_deps[k])
            ==> tells(
            module_findings(c, spec, m),
            ConstraintKind::Dependency,
            ConstraintSeverity::Error,
            "Forbidden dependency: '"@ + spec.module + "' imports '"@ + m.imports[i]
                + "' which matches forbidden '"@ + spec.forbidden_deps[k] + "'"@,
        ),
        0 <= k < spec.forbidden_external.len() && text::contains(
            m.imports[i],
            spec.forbidden_external[k],
        ) ==> tells(
            module_findings(c, spec, m),
            ConstraintKind::Dependency,
            ConstraintSeverity::Error,
            "Forbidden external dependency: '"@ + spec.module + "' imports '"@ + m.imports[i]
                + "' which matches forbidden '"@ + spec.forbidden_external[k] + "'"@,
        ),
{
    let import = m.imports[i];
    if spec.depends_on.len() > 0 && !is_accounted_for(import, spec) {
        let found = import_findings(spec)(import);
        lemma_single(found[0]);
        assert(found =~= seq![found[0]]);
        lemma_each(m.imports, import_findings(spec), i, found[0]);
        lemma_parts(c, spec, m, found[0]);
    }
    let f = forbidden_finding("Forbidden dependency: '"@, spec.module, import);
    let g = forbidden_finding("Forbidden external dependency: '"@, spec.module, import);
    if 0 <= k < spec.forbidden_deps.len() && text::contains(import, spec.forbidden_deps[k]) {
        let x = f(spec.forbidden_deps[k])[0];
        lemma_single(x);
        assert(f(spec.forbidden_deps[k]) =~= seq![x]);
        lemma_each(spec.forbidden_deps, f, k, x);
        lemma_either(collected(spec.forbidden_deps, f), collected(spec.forbidden_external, g), x);
        lemma_each(m.imports, forbidden_findings(spec), i, x);
        lemma_parts(c, spec, m, x);
    }
    if 0 <= k < spec.forbidden_external.len() && text::contains(
        import,
        spec.forbidden_external[k],
    ) {
        let x = g(spec.forbidden_external[k])[0];
        lemma_single(x);
        assert(g(spec.forbidden_external[k]) =~= seq![x]);
        lemma_each(spec.forbidden_external, g, k, x);
        lemma_either(collected(spec.forbidden_deps, f), collected(spec.forbidden_external, g), x);
        lemma_each(m.imports, forbidden_findings(spec), i, x);
        lemma_parts(c, spec, m, x);
    }
}

// ─── Rules ────────────────────────────────────────────────────────────────────

proof fn lemma_violation_findings(vs: Seq<RuleViolationModel>, k: int)
    requires
        0 <= k < vs.len(),
    ensures
        violation_findings(vs).contains(violation_finding(vs[k])),
{
    assert(violation_findings(vs)[k] == violation_finding(vs[k]));
}

/// Each rule that a dependency breaks is told with its name, behind which stands what it says; it
/// weighs as much as the rule does.
pub proof fn broken_rules_are_told(
    c: SpecCheckerModel,
    spec: ModuleSpecModel,
    m: ExtractedModuleModel,
    i: int,
    target: ModuleSpecModel,
    k: int,
)
    requires
        0 <= i < spec.depends_on.len(),
        lookup(c.spec_map, spec.depends_on[i]) == Some(target),
        dependency_violations(c, spec, target) is Some,
        0 <= k < dependency_violations(c, spec, target)->Some_0.len(),
    ensures
        ({
            let v = dependency_violations(c, spec, target)->Some_0[k];
            module_findings(c, spec, m).contains(
                ConstraintResultModel {
                    kind: ConstraintKind::Architectural,
                    tier: VerificationTier::RulesEngine,
                    severity: if v.severity == Severity::Error {
                        ConstraintSeverity::Error
                    } else {
                        ConstraintSeverity::Warning
                    },
                    message: "["@ + v.rule_name + "] "@ + v.message,
                },
            )
        }),
{
    let vs = dependency_violations(c, spec, target)->Some_0;
    let x = violation_finding(vs[k]);
    lemma_violation_findings(vs, k);
    lemma_each(spec.depends_on, architectural_findings(c, spec), i, x);
    lemma_parts(c, spec, m, x);
}

// ─── Type constraints ─────────────────────────────────────────────────────────

/// Each type constraint that does not hold of what is known of its entity is told in full.
pub proof fn violated_constraints_are_told(
    c: SpecCheckerModel,
    spec: ModuleSpecModel,
    m: ExtractedModuleModel,
    i: int,
    k: int,
    formula: FormulaModel,
)
    requires
        0 <= i < spec.exposes.len(),
        0 <= k < spec.exposes[i].1.type_constraints.len(),
        entity_context(spec.exposes[i], m) is Some,
        formula_reading(spec.exposes[i].1.type_constraints[k]) matches Some(Ok(f)) && f == formula,
        eval_formula(formula, entity_context(spec.exposes[i], m)->Some_0) == Ok::<bool, Seq<char>>(
            false,
        ),
    ensures
        module_findings(c, spec, m).contains(
            ConstraintResultModel {
                kind: ConstraintKind::TypeConstraint,
                tier: VerificationTier::TypeFormula,
                severity: ConstraintSeverity::Error,
                message: "'"@ + spec.exposes[i].0 + "' violates type constraint: "@
                    + spec.exposes[i].1.type_constraints[k],
            },
        ),
{
    let entry = spec.exposes[i];
    let ctx = entity_context(entry, m)->Some_0;
    let f = constraint_findings(entry.0, ctx);
    let constraints = entry.1.type_constraints;
    let x = f(constraints[k])[0];
    lemma_single(x);
    assert(f(constraints[k]) =~= seq![x]);
    lemma_each(constraints, f, k, x);
    lemma_each(spec.exposes, entity_findings(m), i, x);
    lemma_parts(c, spec, m, x);
}

// ─── Events and state ─────────────────────────────────────────────────────────

/// Each event that is specified and not defined is told, and where some are specified, each that
/// is defined and not specified.
pub proof fn events_are_told(
    c: SpecCheckerModel,
    spec: ModuleSpecModel,
    m: ExtractedModuleModel,
    event: Seq<char>,
)
    ensures
        spec.emits.contains(event) && !m.events.contains(event) ==> tells(
            module_findings(c, spec, m),
            ConstraintKind::Event,
            ConstraintSeverity::Error,
            "Event '"@ + event + "' is specified in emits but not found in implementation"@,
        ),
        spec.emits.len() > 0 && m.events.contains(event) && !spec.emits.contains(event) ==> tells(
            module_findings(c, spec, m),
            ConstraintKind::Event,
            ConstraintSeverity::Warning,
            "Event '"@ + event + "' is defined in implementation but not in emits spec"@,
        ),
{
    let f = missing_findings(
        m.events,
        ConstraintKind::Event,
        ConstraintSeverity::Error,
        "Event '"@,
        "' is specified in emits but not found in implementation"@,
    );
    let g = missing_findings(
        spec.emits,
        ConstraintKind::Event,
        ConstraintSeverity::Warning,
        "Event '"@,
        "' is defined in implementation but not in emits spec"@,
    );
    let unlisted = if spec.emits.len() == 0 {
        Seq::empty()
    } else {
        collected(m.events, g)
    };
    if spec.emits.contains(event) && !m.events.contains(event) {
        let i = choose|i: int| 0 <= i < spec.emits.len() && spec.emits[i] == event;
        let x = f(event)[0];
        lemma_single(x);
        assert(f(event) =~= seq![x]);
        lemma_each(spec.emits, f, i, x);
        lemma_either(collected(spec.emits, f), unlisted, x);
        lemma_parts(c, spec, m, x);
    }
    if spec.emits.len() > 0 && m.events.contains(event) && !spec.emits.contains(event) {
        let i = choose|i: int| 0 <= i < m.events.len() && m.events[i] == event;
        let x = g(event)[0];
        lemma_single(x);
        assert(g(event) =~= seq![x]);
        lemma_each(m.events, g, i, x);
        lemma_either(collected(spec.emits, f), unlisted, x);
        lemma_parts(c, spec, m, x);
    }
}

proof fn lemma_state_parts(
    c: SpecCheckerModel,
    spec: ModuleSpecModel,
    m: ExtractedModuleModel,
    x: ConstraintResultModel,
)
    ensures
        collected(
            spec.owns_state,
            missing_findings(
                m.state_variables,
                ConstraintKind::Structure,
                ConstraintSeverity::Error,
                "State variable '"@,
                "' is listed in owns_state but not found in implementation"@,
            ),
        ).contains(x) || spec.owns_state.len() > 0 && collected(
            m.state_variables,
            missing_findings(
                spec.owns_state,
                ConstraintKind::Structure,
                ConstraintSeverity::Warning,
                "State variable '"@,
                "' exists in implementation but not listed in owns_state"@,
            ),
        ).contains(x) || collected(
            spec.reads_state,
            foreign_state_findings(c, spec, "reads_state '"@),
        ).contains(x) || collected(
            spec.modifies,
            foreign_state_findings(c, spec, "modifies '"@),
        ).contains(x) || collected(spec.owns_state, conflict_findings(c, spec)).contains(x)
            ==> module_findings(c, spec, m).contains(x),
{
    let missing = collected(
        spec.owns_state,
        missing_findings(
            m.state_variables,
            ConstraintKind::Structure,
            ConstraintSeverity::Error,
            "State variable '"@,
            "' is listed in owns_state but not found in implementation"@,
        ),
    );
    let unlisted = if spec.owns_state.len() == 0 {
        Seq::empty()
    } else {
        collected(
            m.state_variables,
            missing_findings(
                spec.owns_state,
                ConstraintKind::Structure,
                ConstraintSeverity::Warning,
                "State variable '"@,
                "' exists in implementation but not listed in owns_state"@,
            ),
        )
    };
    let reads = collected(spec.reads_state, foreign_state_findings(c, spec, "reads_state '"@));
    let modifies = collected(spec.modifies, foreign_state_findings(c, spec, "modifies '"@));
    let conflicts = collected(spec.owns_state, conflict_findings(c, spec));
    lemma_either(missing, unlisted, x);
    lemma_either(missing + unlisted, reads, x);
    lemma_either(missing + unlisted + reads, modifies, x);
    lemma_either(missing + unlisted + reads + modifies, conflicts, x);
    lemma_parts(c, spec, m, x);
}

/// Each state variable that a spec owns and that does not exist is told, and where it owns some,
/// each that exists and that it does not own.
pub proof fn own_state_is_told(
    c: SpecCheckerModel,
    spec: ModuleSpecModel,
    m: ExtractedModuleModel,
    state: Seq<char>,
)
    ensures
        spec.owns_state.contains(state) && !m.state_variables.contains(state) ==> tells(
            module_findings(c, spec, m),
            ConstraintKind::Structure,
            ConstraintSeverity::Error,
            "State variable '"@ + state
                + "' is listed in owns_state but not found in implementation"@,
        ),
        spec.owns_state.len() > 0 && m.state_variables.contains(state)
            && !spec.owns_state.contains(state) ==> tells(
            module_findings(c, spec, m),
            ConstraintKind::Structure,
            ConstraintSeverity::Warning,
            "State variable '"@ + state
                + "' exists in implementation but not listed in owns_state"@,
        ),
{
    let f = missing_findings(
        m.state_variables,
        ConstraintKind::Structure,
        ConstraintSeverity::Error,
        "State variable '"@,
        "' is listed in owns_state but not found in implementation"@,
    );
    let g = missing_findings(
        spec.owns_state,
        ConstraintKind::Structure,
        ConstraintSeverity::Warning,
        "State variable '"@,
        "' exists in implementation but not listed in owns_state"@,
    );
    if spec.owns_state.contains(state) && !m.state_variables.contains(state) {
        let i = choose|i: int| 0 <= i < spec.owns_state.len() && spec.owns_state[i] == state;
        let x = f(state)[0];
        lemma_single(x);
        assert(f(state) =~= seq![x]);
        lemma_each(spec.owns_state, f, i, x);
        lemma_state_parts(c, spec, m, x);
    }
    if spec.owns_state.len() > 0 && m.state_variables.contains(state) && !spec.owns_state.contains(
        state,
    ) {
        let i = choose|i: int| 0 <= i < m.state_variables.len() && m.state_variables[i] == state;
        let x = g(state)[0];
        lemma_single(x);
        assert(g(state) =~= seq![x]);
        lemma_each(m.state_variables, g, i, x);
        lemma_state_parts(c, spec, m, x);
    }
}

/// Each state that a module reads or modifies and that no other module owns is told, where other
/// modules are known; and each that a module owns together with another, with both.
pub proof fn foreign_state_is_told(
    c: SpecCheckerModel,
    spec: ModuleSpecModel,
    m: ExtractedModuleModel,
    i: int,
    k: int,
)
    ensures
        ({
            let all = module_findings(c, spec, m);
            let is_alone = |state: Seq<char>|
                c.spec_map.len() > 0 && forall|j: int|
                    0 <= j < c.spec_map.len() && (#[trigger] c.spec_map[j]).1.module != spec.module
                        ==> !c.spec_map[j].1.owns_state.contains(state);
            &&& 0 <= i < spec.reads_state.len() && is_alone(spec.reads_state[i]) ==> tells(
                all,
                ConstraintKind::Dependency,
                ConstraintSeverity::Warning,
                "reads_state '"@ + spec.reads_state[i]
                    + "' not found in any other module's owns_state"@,
            )
            &&& 0 <= i < spec.modifies.len() && is_alone(spec.modifies[i]) ==> tells(
                all,
                ConstraintKind::Dependency,
                ConstraintSeverity::Warning,
                "modifies '"@ + spec.modifies[i] + "' not found in any other module's owns_state"@,
            )
            &&& 0 <= i < spec.owns_state.len() && 0 <= k < c.spec_map.len()
                && c.spec_map[k].1.module != spec.module && c.spec_map[k].1.owns_state.contains(
                spec.owns_state[i],
            ) ==> tells(
                all,
                ConstraintKind::Architectural,
                ConstraintSeverity::Error,
                "State ownership conflict: '"@ + spec.owns_state[i] + "' is owned by both '"@
                    + spec.module + "' and '"@ + c.spec_map[k].1.module + "'"@,
            )
        }),
{
    let is_alone = |state: Seq<char>|
        c.spec_map.len() > 0 && forall|j: int|
            0 <= j < c.spec_map.len() && (#[trigger] c.spec_map[j]).1.module != spec.module
                ==> !c.spec_map[j].1.owns_state.contains(state);
    let reads = foreign_state_findings(c, spec, "reads_state '"@);
    let modifies = foreign_state_findings(c, spec, "modifies '"@);
    if 0 <= i < spec.reads_state.len() && is_alone(spec.reads_state[i]) {
        let found = reads(spec.reads_state[i]);
        assert(found.len() == 1);
        lemma_single(found[0]);
        assert(found =~= seq![found[0]]);
        lemma_each(spec.reads_state, reads, i, found[0]);
        lemma_state_parts(c, spec, m, found[0]);
    }
    if 0 <= i < spec.modifies.len() && is_alone(spec.modifies[i]) {
        let found = modifies(spec.modifies[i]);
        assert(found.len() == 1);
        lemma_single(found[0]);
        assert(found =~= seq![found[0]]);
        lemma_each(spec.modifies, modifies, i, found[0]);
        lemma_state_parts(c, spec, m, found[0]);
    }
    if 0 <= i < spec.owns_state.len() && 0 <= k < c.spec_map.len() && c.spec_map[k].1.module
        != spec.module && c.spec_map[k].1.owns_state.contains(spec.owns_state[i]) {
        let f = conflict_finding(spec, spec.owns_state[i]);
        let x = f(c.spec_map[k])[0];
        lemma_single(x);
        assert(f(c.spec_map[k]) =~= seq![x]);
        lemma_each(c.spec_map, f, k, x);
        lemma_each(spec.owns_state, conflict_findings(c, spec), i, x);
        lemma_state_parts(c, spec, m, x);
    }
}

// ─── Protocols ────────────────────────────────────────────────────────────────

proof fn lemma_protocol_parts(
    c: SpecCheckerModel,
    spec: ModuleSpecModel,
    m: ExtractedModuleModel,
    p: ProtocolSpecModel,
    x: ConstraintResultModel,
)
    requires
        spec.protocol == Some(p),
    ensures
        protocol_error(
            unknown_state(p, p.initial),
            "Protocol initial state '"@,
            p.initial,
            "' is not in states list"@,
        ).contains(x) || collected(p.terminal, terminal_findings(p)).contains(x) || collected(
            p.transitions,
            transition_findings(p, m),
        ).contains(x) || collected(p.balanced_pairs, pair_findings(m)).contains(x) || collected(
            p.states,
            unreachable_findings(p),
        ).contains(x) || collected(p.states, dead_end_findings(p)).contains(x) ==> module_findings(
            c,
            spec,
            m,
        ).contains(x),
{
    let p1 = protocol_error(
        unknown_state(p, p.initial),
        "Protocol initial state '"@,
        p.initial,
        "' is not in states list"@,
    );
    let p2 = collected(p.terminal, terminal_findings(p));
    let p3 = collected(p.transitions, transition_findings(p, m));
    let p4 = collected(p.balanced_pairs, pair_findings(m));
    let p5 = collected(p.states, unreachable_findings(p));
    let p6 = collected(p.states, dead_end_findings(p));
    lemma_either(p1, p2, x);
    lemma_either(p1 + p2, p3, x);
    lemma_either(p1 + p2 + p3, p4, x);
    lemma_either(p1 + p2 + p3 + p4, p5, x);
    lemma_either(p1 + p2 + p3 + p4 + p5, p6, x);
    lemma_parts(c, spec, m, x);
}

/// Whether a module has a function, public or private.
pub open spec fn knows_function(m: ExtractedModuleModel, name: Seq<char>) -> bool {
    m.public_functions.contains(name) || m.private_functions.contains(name)
}

/// Of a protocol that lists its states, each one that it uses and does not list is told: the
/// initial state, a terminal one, and one on either side of a transition.
pub proof fn unlisted_states_are_told(
    c: SpecCheckerModel,
    spec: ModuleSpecModel,
    m: ExtractedModuleModel,
    p: ProtocolSpecModel,
    i: int,
)
    requires
        spec.protocol == Some(p),
        p.states.len() > 0,
    ensures
        !p.states.contains(p.initial) ==> tells(
            module_findings(c, spec, m),
            ConstraintKind::Protocol,
            ConstraintSeverity::Error,
            "Protocol initial state '"@ + p.initial + "' is not in states list"@,
        ),
        0 <= i < p.terminal.len() && !p.states.contains(p.terminal[i]) ==> tells(
            module_findings(c, spec, m),
            ConstraintKind::Protocol,
            ConstraintSeverity::Error,
            "Protocol terminal state '"@ + p.terminal[i] + "' is not in states list"@,
        ),
        0 <= i < p.transitions.len() && !p.states.contains(p.transitions[i].from) ==> tells(
            module_findings(c, spec, m),
            ConstraintKind::Protocol,
            ConstraintSeverity::Error,
            "Protocol transition references unknown state '"@ + p.transitions[i].from + "'"@,
        ),
        0 <= i < p.transitions.len() && !p.states.contains(p.transitions[i].to) ==> tells(
            module_findings(c, spec, m),
            ConstraintKind::Protocol,
            ConstraintSeverity::Error,
            "Protocol transition references unknown state '"@ + p.transitions[i].to + "'"@,
        ),
{
    if !p.states.contains(p.initial) {
        let x = error_finding(
            ConstraintKind::Protocol,
            "Protocol initial state '"@ + p.initial + "' is not in states list"@,
        );
        lemma_single(x);
        lemma_protocol_parts(c, spec, m, p, x);
    }
    if 0 <= i < p.terminal.len() && !p.states.contains(p.terminal[i]) {
        let x = error_finding(
            ConstraintKind::Protocol,
            "Protocol terminal state '"@ + p.terminal[i] + "' is not in states list"@,
        );
        lemma_single(x);
        lemma_each(p.terminal, terminal_findings(p), i, x);
        lemma_protocol_parts(c, spec, m, p, x);
    }
    if 0 <= i < p.transitions.len() {
        let t = p.transitions[i];
        let x = error_finding(
            ConstraintKind::Protocol,
            "Protocol transition references unknown state '"@ + t.from + "'"@,
        );
        let y = error_finding(
            ConstraintKind::Protocol,
            "Protocol transition references unknown state '"@ + t.to + "'"@,
        );
        lemma_transition(p, m, t, x);
        lemma_transition(p, m, t, y);
        lemma_single(x);
        lemma_single(y);
        if !p.states.contains(t.from) {
            lemma_each(p.transitions, transition_findings(p, m), i, x);
            lemma_protocol_parts(c, spec, m, p, x);
        }
        if !p.states.contains(t.to) {
            lemma_each(p.transitions, transition_findings(p, m), i, y);
            lemma_protocol_parts(c, spec, m, p, y);
        }
    }
}

proof fn lemma_transition(
    p: ProtocolSpecModel,
    m: ExtractedModuleModel,
    t: TransitionModel,
    x: ConstraintResultModel,
)
    ensures
        ({
            let a = protocol_error(
                unknown_state(p, t.from),
                "Protocol transition references unknown state '"@,
                t.from,
                "'"@,
            );
            let b = protocol_error(
                unknown_state(p, t.to),
                "Protocol transition references unknown state '"@,
                t.to,
                "'"@,
            );
            let d = protocol_error(
                !has_function(m, t.call),
                "Protocol transition references function '"@,
                t.call,
                "' not found in implementation"@,
            );
            a.contains(x) || b.contains(x) || d.contains(x) ==> transition_findings(p, m)(
                t,
            ).contains(x)
        }),
{
    let a = protocol_error(
        unknown_state(p, t.from),
        "Protocol transition references unknown state '"@,
        t.from,
        "'"@,
    );
    let b = protocol_error(
        unknown_state(p, t.to),
        "Protocol transition references unknown state '"@,
        t.to,
        "'"@,
    );
    let d = protocol_error(
        !has_function(m, t.call),
        "Protocol transition references function '"@,
        t.call,
        "' not found in implementation"@,
    );
    lemma_either(a, b, x);
    lemma_either(a + b, d, x);
}

/// Each function that a transition or a balanced pair names and that the module does not have is
/// told.
pub proof fn unknown_functions_are_told(
    c: SpecCheckerModel,
    spec: ModuleSpecModel,
    m: ExtractedModuleModel,
    p: ProtocolSpecModel,
    i: int,
)
    requires
        spec.protocol == Some(p),
    ensures
        0 <= i < p.transitions.len() && !knows_function(m, p.transitions[i].call) ==> tells(
            module_findings(c, spec, m),
            ConstraintKind::Protocol,
            ConstraintSeverity::Error,
            "Protocol transition references function '"@ + p.transitions[i].call
                + "' not found in implementation"@,
        ),
        0 <= i < p.balanced_pairs.len() && !knows_function(m, p.balanced_pairs[i].0) ==> tells(
            module_findings(c, spec, m),
            ConstraintKind::Protocol,
            ConstraintSeverity::Error,
            "Balanced pair references function '"@ + p.balanced_pairs[i].0
                + "' not found in implementation"@,
        ),
        0 <= i < p.balanced_pairs.len() && !knows_function(m, p.balanced_pairs[i].1) ==> tells(
            module_findings(c, spec, m),
            ConstraintKind::Protocol,
            ConstraintSeverity::Error,
            "Balanced pair references function '"@ + p.balanced_pairs[i].1
                + "' not found in implementation"@,
        ),
{
    if 0 <= i < p.transitions.len() && !knows_function(m, p.transitions[i].call) {
        let t = p.transitions[i];
        let x = error_finding(
            ConstraintKind::Protocol,
            "Protocol transition references function '"@ + t.call
                + "' not found in implementation"@,
        );
        lemma_single(x);
        lemma_transition(p, m, t, x);
        lemma_each(p.transitions, transition_findings(p, m), i, x);
        lemma_protocol_parts(c, spec, m, p, x);
    }
    if 0 <= i < p.balanced_pairs.len() {
        let pair = p.balanced_pairs[i];
        let x = error_finding(
            ConstraintKind::Protocol,
            "Balanced pair references function '"@ + pair.0 + "' not found in implementation"@,
        );
        let y = error_finding(
            ConstraintKind::Protocol,
            "Balanced pair references function '"@ + pair.1 + "' not found in implementation"@,
        );
        let a = protocol_error(
            !has_function(m, pair.0),
            "Balanced pair references function '"@,
            pair.0,
            "' not found in implementation"@,
        );
        let b = protocol_error(
            !has_function(m, pair.1),
            "Balanced pair references function '"@,
            pair.1,
            "' not found in implementation"@,
        );
        lemma_single(x);
        lemma_single(y);
        lemma_either(a, b, x);
        lemma_either(a, b, y);
        if !knows_function(m, pair.0) {
            lemma_each(p.balanced_pairs, pair_findings(m), i, x);
            lemma_protocol_parts(c, spec, m, p, x);
        }
        if !knows_function(m, pair.1) {
            lemma_each(p.balanced_pairs, pair_findings(m), i, y);
            lemma_protocol_parts(c, spec, m, p, y);
        }
    }
}

/// Each state that is not the initial one and that no transition leads to is told, and each that
/// is not terminal and that no transition leads out of.
pub proof fn stranded_states_are_told(
    c: SpecCheckerModel,
    spec: ModuleSpecModel,
    m: ExtractedModuleModel,
    p: ProtocolSpecModel,
    i: int,
)
    requires
        spec.protocol == Some(p),
        0 <= i < p.states.len(),
    ensures
        p.states[i] != p.initial && (forall|k: int|
            0 <= k < p.transitions.len() ==> (#[trigger] p.transitions[k]).to != p.states[i])
            ==> tells(
            module_findings(c, spec, m),
            ConstraintKind::Protocol,
            ConstraintSeverity::Warning,
            "Protocol state '"@ + p.states[i] + "' is unreachable (no transition leads to it)"@,
        ),
        !p.terminal.contains(p.states[i]) && (forall|k: int|
            0 <= k < p.transitions.len() ==> (#[trigger] p.transitions[k]).from != p.states[i])
            ==> tells(
            module_findings(c, spec, m),
            ConstraintKind::Protocol,
            ConstraintSeverity::Warning,
            "Protocol state '"@ + p.states[i]
                + "' is a dead end (no outgoing transitions and not terminal)"@,
        ),
{
    let state = p.states[i];
    let x = warning_finding(
        ConstraintKind::Protocol,
        "Protocol state '"@ + state + "' is unreachable (no transition leads to it)"@,
    );
    let y = warning_finding(
        ConstraintKind::Protocol,
        "Protocol state '"@ + state
            + "' is a dead end (no outgoing transitions and not terminal)"@,
    );
    lemma_single(x);
    lemma_single(y);
    if unreachable_findings(p)(state).contains(x) {
        lemma_each(p.states, unreachable_findings(p), i, x);
        lemma_protocol_parts(c, spec, m, p, x);
    }
    if dead_end_findings(p)(state).contains(y) {
        lemma_each(p.states, dead_end_findings(p), i, y);
        lemma_protocol_parts(c, spec, m, p, y);
    }
}

// ─── Projects ─────────────────────────────────────────────────────────────────

/// Each event that a module waits for and that no module emits is told.
pub proof fn lost_events_are_told(
    specs: Seq<ModuleSpecModel>,
    reply: SolverReply,
    i: int,
    k: int,
)
    requires
        0 <= i < specs.len(),
        0 <= k < specs[i].subscribes.len(),
        forall|j: int|
            0 <= j < specs.len() ==> !(#[trigger] specs[j]).emits.contains(specs[i].subscribes[k]),
    ensures
        tells(
            composition_findings(specs, reply),
            ConstraintKind::Event,
            ConstraintSeverity::Error,
            "Module '"@ + specs[i].module + "' subscribes to event '"@ + specs[i].subscribes[k]
                + "' that no module emits"@,
        ),
{
    let f = subscription_finding(specs, specs[i].module);
    let event = specs[i].subscribes[k];
    let found = f(event);
    assert(found.len() == 1);
    let x = found[0];
    lemma_single(x);
    assert(found =~= seq![x]);
    lemma_each(specs[i].subscribes, f, k, x);
    lemma_each(specs, subscription_findings(specs), i, x);
    lemma_either(collected(specs, subscription_findings(specs)), ownership_findings(reply), x);
}

proof fn lemma_subsystem_parts(
    system: SubsystemSpecModel,
    specs: Seq<ModuleSpecModel>,
    x: ConstraintResultModel,
)
    ensures
        collected(system.modules, unmatched_finding(system, specs)).contains(x) || collected(
            system.exposes,
            delegation_finding(system, specs),
        ).contains(x) || collected(specs, member_findings(system)).contains(x)
            ==> subsystem_findings(system, specs).contains(x),
{
    let a = collected(system.modules, unmatched_finding(system, specs));
    let b = collected(system.exposes, delegation_finding(system, specs));
    let d = collected(specs, member_findings(system));
    lemma_either(a, b, x);
    lemma_either(a + b, d, x);
}

/// Each module of a subsystem without a spec is told, and each entity that is left to one that no
/// module of it exposes.
pub proof fn gaps_in_subsystems_are_told(
    system: SubsystemSpecModel,
    specs: Seq<ModuleSpecModel>,
    i: int,
)
    ensures
        0 <= i < system.modules.len() && !has_spec(specs, system.modules[i]) ==> tells(
            subsystem_findings(system, specs),
            ConstraintKind::Structure,
            ConstraintSeverity::Error,
            "Subsystem '"@ + system.subsystem + "': "@ + "module '"@ + system.modules[i]
                + "' has no matching spec"@,
        ),
        0 <= i < system.exposes.len() && system.exposes[i].1.delegates_to is Some
            && !target_exists(system, specs, system.exposes[i].1.delegates_to->Some_0) ==> tells(
            subsystem_findings(system, specs),
            ConstraintKind::Structure,
            ConstraintSeverity::Error,
            "Subsystem '"@ + system.subsystem + "': "@ + "'"@ + system.exposes[i].0
                + "' delegates to '"@ + system.exposes[i].1.delegates_to->Some_0
                + "', which no member module exposes"@,
        ),
{
    if 0 <= i < system.modules.len() && !has_spec(specs, system.modules[i]) {
        let x = unmatched_finding(system, specs)(system.modules[i])[0];
        lemma_single(x);
        assert(unmatched_finding(system, specs)(system.modules[i]) =~= seq![x]);
        lemma_each(system.modules, unmatched_finding(system, specs), i, x);
        lemma_subsystem_parts(system, specs, x);
    }
    if 0 <= i < system.exposes.len() && system.exposes[i].1.delegates_to is Some && !target_exists(
        system,
        specs,
        system.exposes[i].1.delegates_to->Some_0,
    ) {
        let x = delegation_finding(system, specs)(system.exposes[i])[0];
        lemma_single(x);
        assert(delegation_finding(system, specs)(system.exposes[i]) =~= seq![x]);
        lemma_each(system.exposes, delegation_finding(system, specs), i, x);
        lemma_subsystem_parts(system, specs, x);
    }
}

/// Each dependency of a module of a subsystem that leads out of the subsystem is told, and each
/// that matches something forbidden, with what it matches.
pub proof fn outward_dependencies_are_told(
    system: SubsystemSpecModel,
    specs: Seq<ModuleSpecModel>,
    i: int,
    k: int,
    b: int,
)
    requires
        0 <= i < specs.len(),
        is_member(system, specs[i]),
        0 <= k < specs[i].depends_on.len(),
    ensures
        !listed(system.modules, specs[i].depends_on[k]) ==> tells(
            subsystem_findings(system, specs),
            ConstraintKind::Dependency,
            ConstraintSeverity::Warning,
            "Subsystem '"@ + system.subsystem + "': "@ + "module '"@ + specs[i].module
                + "' depends on '"@ + specs[i].depends_on[k] + "' outside the subsystem"@,
        ),
        0 <= b < system.forbidden_deps.len() && text::contains(
            specs[i].depends_on[k],
            system.forbidden_deps[b],
        ) ==> tells(
            subsystem_findings(system, specs),
            ConstraintKind::Dependency,
            ConstraintSeverity::Error,
            "Subsystem '"@ + system.subsystem + "': "@ + "module '"@ + specs[i].module
                + "' depends on '"@ + specs[i].depends_on[k] + "', which matches forbidden '"@
                + system.forbidden_deps[b] + "'"@,
        ),
{
    let module = specs[i].module;
    let dep = specs[i].depends_on[k];
    let leak = leak_finding(system, module)(dep);
    let f = banned_finding(system, module, dep);
    let banned = collected(system.forbidden_deps, f);
    if !listed(system.modules, dep) {
        let x = leak[0];
        lemma_single(x);
        assert(leak =~= seq![x]);
        lemma_either(leak, banned, x);
        lemma_each(specs[i].depends_on, outward_findings(system, module), k, x);
        lemma_each(specs, member_findings(system), i, x);
        lemma_subsystem_parts(system, specs, x);
    }
    if 0 <= b < system.forbidden_deps.len() && text::contains(dep, system.forbidden_deps[b]) {
        let x = f(system.forbidden_deps[b])[0];
        lemma_single(x);
        assert(f(system.forbidden_deps[b]) =~= seq![x]);
        lemma_each(system.forbidden_deps, f, b, x);
        lemma_either(leak, banned, x);
        lemma_each(specs[i].depends_on, outward_findings(system, module), k, x);
        lemma_each(specs, member_findings(system), i, x);
        lemma_subsystem_parts(system, specs, x);
    }
}

/// Each dependency of a module on something of another project that is not public is told, and
/// each on something of a project that is not known.
pub proof fn crossed_boundaries_are_told(
    graph: DependencyGraphModel,
    failing: Seq<Seq<char>>,
    spec: ModuleSpecModel,
    k: int,
    project: Seq<char>,
    local: Seq<char>,
)
    requires
        0 <= k < spec.depends_on.len(),
        cross_ref(spec.depends_on[k]) == Some((project, local)),
        !failing.contains(project),
    ensures
        graph.project(project) is None ==> tells(
            boundary_findings(graph, failing)(spec),
            ConstraintKind::Dependency,
            ConstraintSeverity::Error,
            "Module '"@ + spec.module + "' depends on '"@ + spec.depends_on[k]
                + "' of an unknown project"@,
        ),
        graph.project(project) is Some && !graph.project(project)->Some_0.is_public(local)
            ==> tells(
            boundary_findings(graph, failing)(spec),
            ConstraintKind::Dependency,
            ConstraintSeverity::Error,
            "Module '"@ + spec.module + "' depends on '"@ + spec.depends_on[k]
                + "', which is not public"@,
        ),
{
    let f = boundary_finding(graph, failing, spec.module);
    let found = f(spec.depends_on[k]);
    if found.len() == 1 {
        let x = found[0];
        lemma_single(x);
        assert(found =~= seq![x]);
        lemma_each(spec.depends_on, f, k, x);
    }
}

// ─── Formulas that cannot be decided ──────────────────────────────────────────

/// Each type constraint that cannot be evaluated is told with the reason, and each that cannot be
/// read with the place and the reason; so is a type with constraints that is not defined.
pub proof fn undecided_constraints_are_told(
    c: SpecCheckerModel,
    spec: ModuleSpecModel,
    m: ExtractedModuleModel,
    i: int,
    k: int,
)
    requires
        0 <= i < spec.exposes.len(),
        0 <= k < spec.exposes[i].1.type_constraints.len(),
    ensures
        ({
            let name = spec.exposes[i].0;
            let constraint = spec.exposes[i].1.type_constraints[k];
            let all = module_findings(c, spec, m);
            let failure = |message: Seq<char>|
                ConstraintResultModel {
                    kind: ConstraintKind::TypeConstraint,
                    tier: VerificationTier::TypeFormula,
                    severity: ConstraintSeverity::Error,
                    message,
                };
            &&& entity_context(spec.exposes[i], m) matches Some(ctx) ==> (formula_reading(
                constraint,
            ) matches Some(Ok(f)) ==> (eval_formula(f, ctx) matches Err(e) ==> all.contains(
                failure(
                    "'"@ + name + "' type constraint evaluation error for '"@ + constraint
                        + "': "@ + ("Evaluation error: "@ + e),
                ),
            )))
            &&& entity_context(spec.exposes[i], m) is Some ==> (formula_reading(
                constraint,
            ) matches Some(Err(e)) ==> all.contains(
                failure(
                    "'"@ + name + "' type constraint parse error for '"@ + constraint + "': "@ + (
                    "Parse error at position "@ + text::decimal(e.position as nat) + ": "@
                        + e.message),
                ),
            ))
            &&& spec.exposes[i].1.kind == Some("type"@) && lookup(m.type_definitions, name) is None
                ==> tells(
                all,
                ConstraintKind::TypeConstraint,
                ConstraintSeverity::Error,
                "Type '"@ + name + "' is specified but not found in implementation"@,
            )
        }),
{
    let entry = spec.exposes[i];
    let constraints = entry.1.type_constraints;
    reveal_strlit("type");
    reveal_strlit("variable");
    assert("type"@.len() != "variable"@.len());
    if let Some(ctx) = entity_context(entry, m) {
        let f = constraint_findings(entry.0, ctx);
        let found = f(constraints[k]);
        if found.len() == 1 {
            let x = found[0];
            lemma_single(x);
            assert(found =~= seq![x]);
            lemma_each(constraints, f, k, x);
            lemma_each(spec.exposes, entity_findings(m), i, x);
            lemma_parts(c, spec, m, x);
        }
    } else {
        let found = entity_findings(m)(entry);
        if found.len() == 1 {
            let x = found[0];
            lemma_single(x);
            assert(found =~= seq![x]);
            lemma_each(spec.exposes, entity_findings(m), i, x);
            lemma_parts(c, spec, m, x);
        }
    }
}

} // verus!

//! What is found of the specs of a project together, and of what they use of other projects.
use vstd::prelude::*;

use super::composition::{
    banned_finding, boundary_finding, boundary_findings, composition_findings, delegation_finding,
    emitted, has_spec, is_member, leak_finding, member_findings, names_module, outward_findings,
    ownership_findings, subscription_finding, subscription_findings, subsystem_findings,
    target_exists, unmatched_finding,
};
use super::verdict::{lemma_reported_each, lemma_reported_either, reported};
use super::{collected, module_name_of, ConstraintKind, ConstraintResultModel, ConstraintSeverity};
use crate::data::has_key;
use crate::dependency::{cross_ref, listed, DependencyGraphModel};
use crate::smt::SolverReply;
use crate::spec::{ModuleSpecModel, SubsystemSpecModel};
use crate::text;

verus! {

// ─── Events and state ─────────────────────────────────────────────────────────

/// Whether a module subscribes to an event that no module emits.
pub open spec fn waits_in_vain(specs: Seq<ModuleSpecModel>, i: int, k: int) -> bool {
    &&& 0 <= i < specs.len()
    &&& 0 <= k < specs[i].subscribes.len()
    &&& forall|j: int|
        0 <= j < specs.len() ==> !(#[trigger] specs[j]).emits.contains(specs[i].subscribes[k])
}

proof fn lemma_one(f: ConstraintResultModel, kind: ConstraintKind, severity: ConstraintSeverity)
    ensures
        reported(seq![f], kind, severity) <==> f.kind == kind && f.severity == severity,
        !reported(Seq::empty(), kind, severity),
{
    let s = seq![f];
    if f.kind == kind && f.severity == severity {
        assert(s[0].kind == kind);
    }
}

/// An event that is subscribed to and that no module emits is an error, and nothing else about
/// events is.
pub proof fn lost_events_are_errors(specs: Seq<ModuleSpecModel>, reply: SolverReply)
    ensures
        reported(
            composition_findings(specs, reply),
            ConstraintKind::Event,
            ConstraintSeverity::Error,
        ) <==> exists|i: int, k: int| #[trigger] waits_in_vain(specs, i, k),
{
    let kind = ConstraintKind::Event;
    let severity = ConstraintSeverity::Error;
    let f = subscription_findings(specs);
    lemma_reported_either(collected(specs, f), ownership_findings(reply), kind, severity);
    lemma_reported_each(specs, f, kind, severity);
    lemma_ownership(reply);
    assert forall|i: int| 0 <= i < specs.len() implies (reported(
        f(#[trigger] specs[i]),
        kind,
        severity,
    ) <==> exists|k: int| #[trigger] waits_in_vain(specs, i, k)) by {
        let spec = specs[i];
        let g = subscription_finding(specs, spec.module);
        lemma_reported_each(spec.subscribes, g, kind, severity);
        assert forall|k: int| 0 <= k < spec.subscribes.len() implies (reported(
            g(#[trigger] spec.subscribes[k]),
            kind,
            severity,
        ) <==> waits_in_vain(specs, i, k)) by {
            let event = spec.subscribes[k];
            let found = super::error_finding(
                kind,
                "Module '"@ + spec.module + "' subscribes to event '"@ + event
                    + "' that no module emits"@,
            );
            lemma_one(found, kind, severity);
            assert(emitted(specs, event) <==> !waits_in_vain(specs, i, k));
        }
        if exists|k: int| #[trigger] waits_in_vain(specs, i, k) {
            let k = choose|k: int| #[trigger] waits_in_vain(specs, i, k);
            assert(reported(g(spec.subscribes[k]), kind, severity));
        }
        if reported(f(spec), kind, severity) {
            let k = choose|k: int|
                0 <= k < spec.subscribes.len() && reported(
                    g(#[trigger] spec.subscribes[k]),
                    kind,
                    severity,
                );
            assert(waits_in_vain(specs, i, k));
        }
    }
    if exists|i: int, k: int| #[trigger] waits_in_vain(specs, i, k) {
        let (i, k) = choose|i: int, k: int| #[trigger] waits_in_vain(specs, i, k);
        assert(reported(f(specs[i]), kind, severity));
    }
}

proof fn lemma_ownership(reply: SolverReply)
    ensures
        !reported(ownership_findings(reply), ConstraintKind::Event, ConstraintSeverity::Error),
{
}

/// Claims on states that contradict each other are an error; where the solver could not tell,
/// that is a warning; without a solver, and where the claims are consistent, nothing is found.
pub proof fn conflicting_claims_are_errors(reply: SolverReply)
    ensures
        ({
            let found = ownership_findings(reply);
            let word = match reply {
                SolverReply::Output { stdout, .. } => Some(text::trim(stdout@)),
                _ => None,
            };
            &&& found.len() == 0 <==> reply is Missing || word == Some("sat"@)
            &&& reported(found, ConstraintKind::Architectural, ConstraintSeverity::Error)
                <==> word == Some("unsat"@)
            &&& reported(found, ConstraintKind::Architectural, ConstraintSeverity::Warning)
                <==> !(reply is Missing) && word != Some("sat"@) && word != Some("unsat"@)
        }),
{
    crate::solver::words_of_the_solver_decide(reply);
    let found = ownership_findings(reply);
    if found.len() > 0 {
        assert(found =~= seq![found[0]]);
        lemma_one(found[0], ConstraintKind::Architectural, ConstraintSeverity::Error);
        lemma_one(found[0], ConstraintKind::Architectural, ConstraintSeverity::Warning);
    }
    reveal_strlit("sat");
    reveal_strlit("unsat");
    assert("sat"@.len() == 3 && "unsat"@.len() == 5);
}

// ─── Subsystems ───────────────────────────────────────────────────────────────

/// Whether a name of a subsystem is that of a spec: its path, its module, or the module that
/// the path stands for.
pub open spec fn is_named(member: Seq<char>, spec: ModuleSpecModel) -> bool {
    ||| spec.source_path == Some(member)
    ||| spec.module == member
    ||| spec.module == module_name_of(member)
}

/// Whether a spec is one of the subsystem.
pub open spec fn belongs(system: SubsystemSpecModel, spec: ModuleSpecModel) -> bool {
    exists|i: int| 0 <= i < system.modules.len() && is_named(#[trigger] system.modules[i], spec)
}

/// Whether a module of a subsystem has no spec.
pub open spec fn is_unspecified(
    system: SubsystemSpecModel,
    specs: Seq<ModuleSpecModel>,
    i: int,
) -> bool {
    &&& 0 <= i < system.modules.len()
    &&& forall|j: int| 0 <= j < specs.len() ==> !is_named(system.modules[i], #[trigger] specs[j])
}

/// Whether what an entity of a subsystem delegates to does not exist: no module of the
/// subsystem of the name before the first dot exposes what is named behind it.
pub open spec fn delegates_to_nothing(
    system: SubsystemSpecModel,
    specs: Seq<ModuleSpecModel>,
    i: int,
) -> bool {
    &&& 0 <= i < system.exposes.len()
    &&& system.exposes[i].1.delegates_to matches Some(target) && (text::find_char_from(
        target,
        '.',
        0,
    ) matches Some(k) ==> forall|j: int|
        0 <= j < specs.len() && belongs(system, #[trigger] specs[j]) && specs[j].module == target.take(
            k,
        ) ==> !has_key(specs[j].exposes, target.skip(k + 1)))
}

/// A module of a subsystem without a spec, and an entity that delegates to nothing, are errors
/// of structure; nothing else is.
pub proof fn incomplete_subsystems_are_errors(system: SubsystemSpecModel, specs: Seq<ModuleSpecModel>)
    ensures
        reported(
            subsystem_findings(system, specs),
            ConstraintKind::Structure,
            ConstraintSeverity::Error,
        ) <==> (exists|i: int| #[trigger] is_unspecified(system, specs, i)) || (exists|i: int|
            #[trigger] delegates_to_nothing(system, specs, i)),
{
    let kind = ConstraintKind::Structure;
    let severity = ConstraintSeverity::Error;
    let a = collected(system.modules, unmatched_finding(system, specs));
    let b = collected(system.exposes, delegation_finding(system, specs));
    let c = collected(specs, member_findings(system));
    lemma_reported_either(a + b, c, kind, severity);
    lemma_reported_either(a, b, kind, severity);
    lemma_unmatched(system, specs);
    lemma_delegations(system, specs);
    lemma_reported_each(specs, member_findings(system), kind, severity);
    assert forall|i: int| 0 <= i < specs.len() implies !reported(
        member_findings(system)(#[trigger] specs[i]),
        kind,
        severity,
    ) by {
        lemma_outward(system, specs[i], kind, severity);
    }
}

proof fn lemma_unmatched(system: SubsystemSpecModel, specs: Seq<ModuleSpecModel>)
    ensures
        reported(
            collected(system.modules, unmatched_finding(system, specs)),
            ConstraintKind::Structure,
            ConstraintSeverity::Error,
        ) <==> (exists|i: int| #[trigger] is_unspecified(system, specs, i)),
{
    let kind = ConstraintKind::Structure;
    let severity = ConstraintSeverity::Error;
    let f = unmatched_finding(system, specs);
    lemma_reported_each(system.modules, f, kind, severity);
    assert forall|i: int| 0 <= i < system.modules.len() implies (reported(
        f(#[trigger] system.modules[i]),
        kind,
        severity,
    ) <==> is_unspecified(system, specs, i)) by {
        let member = system.modules[i];
        let found = super::error_finding(
            kind,
            super::composition::about(system) + "module '"@ + member + "' has no matching spec"@,
        );
        lemma_one(found, kind, severity);
        if !is_unspecified(system, specs, i) {
            let j = choose|j: int| 0 <= j < specs.len() && is_named(member, #[trigger] specs[j]);
            assert(names_module(member, specs[j]));
            assert(has_spec(specs, member));
        }
        if has_spec(specs, member) {
            let j = choose|j: int|
                0 <= j < specs.len() && names_module(member, #[trigger] specs[j]);
            assert(is_named(member, specs[j]));
        }
    }
    if exists|i: int| #[trigger] is_unspecified(system, specs, i) {
        let i = choose|i: int| #[trigger] is_unspecified(system, specs, i);
        assert(reported(f(system.modules[i]), kind, severity));
    }
}

proof fn lemma_members(system: SubsystemSpecModel, spec: ModuleSpecModel)
    ensures
        is_member(system, spec) <==> belongs(system, spec),
{
    if is_member(system, spec) {
        let i = choose|i: int|
            0 <= i < system.modules.len() && names_module(#[trigger] system.modules[i], spec);
        assert(is_named(system.modules[i], spec));
    }
    if belongs(system, spec) {
        let i = choose|i: int|
            0 <= i < system.modules.len() && is_named(#[trigger] system.modules[i], spec);
        assert(names_module(system.modules[i], spec));
    }
}

proof fn lemma_delegations(system: SubsystemSpecModel, specs: Seq<ModuleSpecModel>)
    ensures
        reported(
            collected(system.exposes, delegation_finding(system, specs)),
            ConstraintKind::Structure,
            ConstraintSeverity::Error,
        ) <==> (exists|i: int| #[trigger] delegates_to_nothing(system, specs, i)),
{
    let kind = ConstraintKind::Structure;
    let severity = ConstraintSeverity::Error;
    let f = delegation_finding(system, specs);
    lemma_reported_each(system.exposes, f, kind, severity);
    assert forall|i: int| 0 <= i < system.exposes.len() implies (reported(
        f(#[trigger] system.exposes[i]),
        kind,
        severity,
    ) <==> delegates_to_nothing(system, specs, i)) by {
        lemma_delegation(system, specs, i);
    }
    if exists|i: int| #[trigger] delegates_to_nothing(system, specs, i) {
        let i = choose|i: int| #[trigger] delegates_to_nothing(system, specs, i);
        assert(reported(f(system.exposes[i]), kind, severity));
    }
}

proof fn lemma_delegation(system: SubsystemSpecModel, specs: Seq<ModuleSpecModel>, i: int)
    requires
        0 <= i < system.exposes.len(),
    ensures
        reported(
            delegation_finding(system, specs)(system.exposes[i]),
            ConstraintKind::Structure,
            ConstraintSeverity::Error,
        ) <==> delegates_to_nothing(system, specs, i),
{
    let kind = ConstraintKind::Structure;
    let severity = ConstraintSeverity::Error;
    let entry = system.exposes[i];
    match entry.1.delegates_to {
        Some(target) => {
            let found = super::error_finding(
                kind,
                super::composition::about(system) + "'"@ + entry.0 + "' delegates to '"@ + target
                    + "', which no member module exposes"@,
            );
            lemma_one(found, kind, severity);
            assert forall|j: int| 0 <= j < specs.len() implies (is_member(
                system,
                #[trigger] specs[j],
            ) <==> belongs(system, specs[j])) by {
                lemma_members(system, specs[j]);
            }
            if let Some(k) = text::find_char_from(target, '.', 0) {
                if target_exists(system, specs, target) {
                    let j = choose|j: int|
                        0 <= j < specs.len() && is_member(system, #[trigger] specs[j])
                            && specs[j].module == target.take(k) && has_key(
                            specs[j].exposes,
                            target.skip(k + 1),
                        );
                    assert(belongs(system, specs[j]));
                }
            }
        },
        None => {
            lemma_one(super::error_finding(kind, Seq::empty()), kind, severity);
        },
    }
}

/// Whether a module of a subsystem depends on something outside it.
pub open spec fn leaks(
    system: SubsystemSpecModel,
    specs: Seq<ModuleSpecModel>,
    i: int,
    k: int,
) -> bool {
    &&& 0 <= i < specs.len()
    &&& belongs(system, specs[i])
    &&& 0 <= k < specs[i].depends_on.len()
    &&& !listed(system.modules, specs[i].depends_on[k])
}

/// Whether a module of a subsystem depends on something that holds a forbidden name.
pub open spec fn uses_forbidden(
    system: SubsystemSpecModel,
    specs: Seq<ModuleSpecModel>,
    i: int,
    k: int,
    f: int,
) -> bool {
    &&& 0 <= i < specs.len()
    &&& belongs(system, specs[i])
    &&& 0 <= k < specs[i].depends_on.len()
    &&& 0 <= f < system.forbidden_deps.len()
    &&& text::contains(specs[i].depends_on[k], system.forbidden_deps[f])
}

/// What is found of the dependencies of one module.
proof fn lemma_outward(
    system: SubsystemSpecModel,
    spec: ModuleSpecModel,
    kind: ConstraintKind,
    severity: ConstraintSeverity,
)
    ensures
        reported(member_findings(system)(spec), kind, severity) <==> belongs(system, spec) && kind
            == ConstraintKind::Dependency && exists|k: int|
            0 <= k < spec.depends_on.len() && is_outward(
                system,
                #[trigger] spec.depends_on[k],
                severity,
            ),
{
    lemma_members(system, spec);
    let f = outward_findings(system, spec.module);
    lemma_reported_each(spec.depends_on, f, kind, severity);
    assert forall|k: int| 0 <= k < spec.depends_on.len() implies (reported(
        f(#[trigger] spec.depends_on[k]),
        kind,
        severity,
    ) <==> kind == ConstraintKind::Dependency && is_outward(system, spec.depends_on[k], severity)) by {
        lemma_dependency(system, spec.module, spec.depends_on[k], kind, severity);
    }
    lemma_one(super::error_finding(kind, Seq::empty()), kind, severity);
}

/// Whether a dependency leads out of a subsystem: a warning, or an error where it is forbidden.
pub open spec fn is_outward(
    system: SubsystemSpecModel,
    dep: Seq<char>,
    severity: ConstraintSeverity,
) -> bool {
    match severity {
        ConstraintSeverity::Warning => !listed(system.modules, dep),
        ConstraintSeverity::Error => exists|f: int|
            0 <= f < system.forbidden_deps.len() && text::contains(
                dep,
                #[trigger] system.forbidden_deps[f],
            ),
    }
}

proof fn lemma_dependency(
    system: SubsystemSpecModel,
    module: Seq<char>,
    dep: Seq<char>,
    kind: ConstraintKind,
    severity: ConstraintSeverity,
)
    ensures
        reported(outward_findings(system, module)(dep), kind, severity) <==> kind
            == ConstraintKind::Dependency && is_outward(system, dep, severity),
{
    let leak = leak_finding(system, module)(dep);
    let g = banned_finding(system, module, dep);
    lemma_reported_either(leak, collected(system.forbidden_deps, g), kind, severity);
    lemma_reported_each(system.forbidden_deps, g, kind, severity);
    lemma_one(
        super::warning_finding(
            ConstraintKind::Dependency,
            super::composition::about(system) + "module '"@ + module + "' depends on '"@ + dep
                + "' outside the subsystem"@,
        ),
        kind,
        severity,
    );
    assert forall|f: int| 0 <= f < system.forbidden_deps.len() implies (reported(
        g(#[trigger] system.forbidden_deps[f]),
        kind,
        severity,
    ) <==> kind == ConstraintKind::Dependency && severity == ConstraintSeverity::Error
        && text::contains(dep, system.forbidden_deps[f])) by {
        lemma_one(
            super::error_finding(
                ConstraintKind::Dependency,
                super::composition::about(system) + "module '"@ + module + "' depends on '"@ + dep
                    + "', which matches forbidden '"@ + system.forbidden_deps[f] + "'"@,
            ),
            kind,
            severity,
        );
    }
    if exists|f: int|
        0 <= f < system.forbidden_deps.len() && text::contains(dep, #[trigger] system.forbidden_deps[f]) {
        let f = choose|f: int|
            0 <= f < system.forbidden_deps.len() && text::contains(
                dep,
                #[trigger] system.forbidden_deps[f],
            );
        if kind == ConstraintKind::Dependency && severity == ConstraintSeverity::Error {
            assert(reported(g(system.forbidden_deps[f]), kind, severity));
        }
    }
}

/// A dependency of a module of a subsystem on what is outside it is a warning, and one on what
/// is forbidden an error; other modules may depend on what they like.
pub proof fn subsystems_depend_on_themselves(system: SubsystemSpecModel, specs: Seq<ModuleSpecModel>)
    ensures
        reported(
            subsystem_findings(system, specs),
            ConstraintKind::Dependency,
            ConstraintSeverity::Warning,
        ) <==> exists|i: int, k: int| #[trigger] leaks(system, specs, i, k),
        reported(
            subsystem_findings(system, specs),
            ConstraintKind::Dependency,
            ConstraintSeverity::Error,
        ) <==> exists|i: int, k: int, f: int| #[trigger] uses_forbidden(system, specs, i, k, f),
{
    lemma_only_members(system, specs, ConstraintSeverity::Warning);
    lemma_only_members(system, specs, ConstraintSeverity::Error);
    if exists|i: int, k: int| #[trigger] leaks(system, specs, i, k) {
        let (i, k) = choose|i: int, k: int| #[trigger] leaks(system, specs, i, k);
        assert(is_outward(system, specs[i].depends_on[k], ConstraintSeverity::Warning));
        assert(reported(
            member_findings(system)(specs[i]),
            ConstraintKind::Dependency,
            ConstraintSeverity::Warning,
        ));
    }
    if exists|i: int, k: int, f: int| #[trigger] uses_forbidden(system, specs, i, k, f) {
        let (i, k, f) = choose|i: int, k: int, f: int| #[trigger] uses_forbidden(system, specs, i, k, f);
        assert(is_outward(system, specs[i].depends_on[k], ConstraintSeverity::Error));
        assert(reported(
            member_findings(system)(specs[i]),
            ConstraintKind::Dependency,
            ConstraintSeverity::Error,
        ));
    }
    if exists|i: int|
        0 <= i < specs.len() && reported(
            member_findings(system)(#[trigger] specs[i]),
            ConstraintKind::Dependency,
            ConstraintSeverity::Warning,
        ) {
        let i = choose|i: int|
            0 <= i < specs.len() && reported(
                member_findings(system)(#[trigger] specs[i]),
                ConstraintKind::Dependency,
                ConstraintSeverity::Warning,
            );
        let k = choose|k: int|
            0 <= k < specs[i].depends_on.len() && is_outward(
                system,
                #[trigger] specs[i].depends_on[k],
                ConstraintSeverity::Warning,
            );
        assert(leaks(system, specs, i, k));
    }
    if exists|i: int|
        0 <= i < specs.len() && reported(
            member_findings(system)(#[trigger] specs[i]),
            ConstraintKind::Dependency,
            ConstraintSeverity::Error,
        ) {
        let i = choose|i: int|
            0 <= i < specs.len() && reported(
                member_findings(system)(#[trigger] specs[i]),
                ConstraintKind::Dependency,
                ConstraintSeverity::Error,
            );
        let k = choose|k: int|
            0 <= k < specs[i].depends_on.len() && is_outward(
                system,
                #[trigger] specs[i].depends_on[k],
                ConstraintSeverity::Error,
            );
        let f = choose|f: int|
            0 <= f < system.forbidden_deps.len() && text::contains(
                specs[i].depends_on[k],
                #[trigger] system.forbidden_deps[f],
            );
        assert(uses_forbidden(system, specs, i, k, f));
    }
}

proof fn lemma_only_members(
    system: SubsystemSpecModel,
    specs: Seq<ModuleSpecModel>,
    severity: ConstraintSeverity,
)
    ensures
        reported(subsystem_findings(system, specs), ConstraintKind::Dependency, severity) <==> exists|
            i: int,
        |
            0 <= i < specs.len() && reported(
                member_findings(system)(#[trigger] specs[i]),
                ConstraintKind::Dependency,
                severity,
            ),
        forall|i: int|
            #![trigger specs[i]]
            0 <= i < specs.len() ==> (reported(
                member_findings(system)(specs[i]),
                ConstraintKind::Dependency,
                severity,
            ) <==> belongs(system, specs[i]) && exists|k: int|
                0 <= k < specs[i].depends_on.len() && is_outward(
                    system,
                    #[trigger] specs[i].depends_on[k],
                    severity,
                )),
{
    let kind = ConstraintKind::Dependency;
    let a = collected(system.modules, unmatched_finding(system, specs));
    let b = collected(system.exposes, delegation_finding(system, specs));
    let c = collected(specs, member_findings(system));
    lemma_reported_either(a + b, c, kind, severity);
    lemma_reported_either(a, b, kind, severity);
    lemma_reported_each(system.modules, unmatched_finding(system, specs), kind, severity);
    lemma_reported_each(system.exposes, delegation_finding(system, specs), kind, severity);
    lemma_reported_each(specs, member_findings(system), kind, severity);
    assert forall|i: int|
        #![trigger specs[i]]
        0 <= i < specs.len() implies (reported(member_findings(system)(specs[i]), kind, severity)
        <==> belongs(system, specs[i]) && exists|k: int|
        0 <= k < specs[i].depends_on.len() && is_outward(
            system,
            #[trigger] specs[i].depends_on[k],
            severity,
        )) by {
        lemma_outward(system, specs[i], kind, severity);
    }
}

// ─── Other projects ───────────────────────────────────────────────────────────

/// Whether a module uses what another project does not offer: the project is unknown, or the
/// module of it is not public. Projects with errors of their own are not looked at.
pub open spec fn crosses(
    graph: DependencyGraphModel,
    failing: Seq<Seq<char>>,
    dep: Seq<char>,
) -> bool {
    cross_ref(dep) matches Some((project, local)) && !failing.contains(project) && (graph.project(
        project,
    ) matches Some(p) ==> !p.is_public(local))
}

/// What a module uses of other projects is an error exactly where it is not offered.
pub proof fn crossed_boundaries_are_errors(
    graph: DependencyGraphModel,
    failing: Seq<Seq<char>>,
    spec: ModuleSpecModel,
)
    ensures
        reported(
            boundary_findings(graph, failing)(spec),
            ConstraintKind::Dependency,
            ConstraintSeverity::Error,
        ) <==> exists|k: int|
            0 <= k < spec.depends_on.len() && crosses(
                graph,
                failing,
                #[trigger] spec.depends_on[k],
            ),
{
    let kind = ConstraintKind::Dependency;
    let severity = ConstraintSeverity::Error;
    let f = boundary_finding(graph, failing, spec.module);
    lemma_reported_each(spec.depends_on, f, kind, severity);
    assert forall|k: int| 0 <= k < spec.depends_on.len() implies (reported(
        f(#[trigger] spec.depends_on[k]),
        kind,
        severity,
    ) <==> crosses(graph, failing, spec.depends_on[k])) by {
        let dep = spec.depends_on[k];
        let found = f(dep);
        if found.len() > 0 {
            assert(found =~= seq![found[0]]);
            lemma_one(found[0], kind, severity);
        }
    }
    if exists|k: int|
        0 <= k < spec.depends_on.len() && crosses(graph, failing, #[trigger] spec.depends_on[k]) {
        let k = choose|k: int|
            0 <= k < spec.depends_on.len() && crosses(
                graph,
                failing,
                #[trigger] spec.depends_on[k],
            );
        assert(reported(f(spec.depends_on[k]), kind, severity));
    }
}

} // verus!

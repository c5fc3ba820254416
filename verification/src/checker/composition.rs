//! Checking specs together: the specs of a project, its subsystems, and what it uses of other
//! projects.
use vstd::prelude::*;

use super::{
    collected, error_finding, finding_if, lemma_collected_all, lemma_collected_empty,
    lemma_collected_step, make_result, module_name_of, result_of, warning_finding, CheckResult,
    ConstraintKind, ConstraintResult, ConstraintResultModel, ConstraintSeverity, SpecChecker,
    VerificationTier,
};
use crate::data::{append_item, has_key, list_contains};
use crate::dependency::{cross_ref, find_listed, listed, DependencyGraph, DependencyGraphModel};
use crate::smt::{
    check_state_ownership_consistency, ownership_conclusion, ownership_consistent, read_reply,
    reply_result, SmtResult, SolverReply,
};
use crate::spec::{
    ModuleSpec, ModuleSpecModel, SubsystemExposeModel, SubsystemSpec, SubsystemSpecModel,
};
use crate::text;

verus! {

fn push_finding(
    out: &mut Vec<ConstraintResult>,
    condition: bool,
    kind: ConstraintKind,
    severity: ConstraintSeverity,
    message: String,
)
    ensures
        final(out).deep_view() == old(out).deep_view() + finding_if(
            condition,
            (ConstraintResultModel {
                kind,
                tier: VerificationTier::Syntactic,
                severity,
                message: message@,
            }),
        ),
{
    let ghost start = out.deep_view();
    if condition {
        append_item(
            out,
            ConstraintResult { kind, tier: VerificationTier::Syntactic, severity, message },
        );
    }
    assert(out.deep_view() =~= start + finding_if(
        condition,
        (ConstraintResultModel {
            kind,
            tier: VerificationTier::Syntactic,
            severity,
            message: message@,
        }),
    ));
}

// ─── Events ───────────────────────────────────────────────────────────────────

/// Whether some module emits an event.
pub open spec fn emitted(specs: Seq<ModuleSpecModel>, event: Seq<char>) -> bool {
    exists|i: int| 0 <= i < specs.len() && (#[trigger] specs[i]).emits.contains(event)
}

/// What is found of an event that a module subscribes to: some module must emit it.
pub open spec fn subscription_finding(specs: Seq<ModuleSpecModel>, module: Seq<char>) -> spec_fn(
    Seq<char>,
) -> Seq<ConstraintResultModel> {
    |event: Seq<char>|
        finding_if(
            !emitted(specs, event),
            error_finding(
                ConstraintKind::Event,
                "Module '"@ + module + "' subscribes to event '"@ + event
                    + "' that no module emits"@,
            ),
        )
}

/// What is found of the events that a module subscribes to.
pub open spec fn subscription_findings(specs: Seq<ModuleSpecModel>) -> spec_fn(
    ModuleSpecModel,
) -> Seq<ConstraintResultModel> {
    |spec: ModuleSpecModel|
        collected(spec.subscribes, subscription_finding(specs, spec.module))
}

fn is_emitted(specs: &[ModuleSpec], event: &String) -> (b: bool)
    ensures
        b == emitted(specs.deep_view(), event@),
{
    let ghost all = specs.deep_view();
    let mut i: usize = 0;
    while i < specs.len()
        invariant
            i <= specs@.len(),
            all == specs.deep_view(),
            forall|j: int| 0 <= j < i ==> !(#[trigger] all[j]).emits.contains(event@),
        decreases specs@.len() - i,
    {
        assert(all[i as int] == specs@[i as int].deep_view());
        if list_contains(specs[i].emits.as_slice(), event) {
            assert(all[i as int].emits.contains(event@));
            return true;
        }
        i += 1;
    }
    false
}

fn check_subscriptions_of(
    specs: &[ModuleSpec],
    spec: &ModuleSpec,
    out: &mut Vec<ConstraintResult>,
)
    ensures
        final(out).deep_view() == old(out).deep_view() + subscription_findings(specs.deep_view())(
            spec.deep_view(),
        ),
{
    let ghost start = out.deep_view();
    let ghost items = spec.deep_view().subscribes;
    let ghost f = subscription_finding(specs.deep_view(), spec.module@);
    proof {
        lemma_collected_all(items, f);
    }
    assert(start + Seq::empty() =~= start);
    let mut i: usize = 0;
    while i < spec.subscribes.len()
        invariant
            i <= items.len() == spec.subscribes@.len(),
            items == spec.deep_view().subscribes,
            f == subscription_finding(specs.deep_view(), spec.module@),
            out.deep_view() == start + collected(items.take(i as int), f),
        decreases items.len() - i,
    {
        let event = &spec.subscribes[i];
        assert(items[i as int] == event@);
        proof {
            lemma_collected_step(items, f, i as int);
        }
        let ghost done = collected(items.take(i as int), f);
        let mut message = "Module '".to_owned();
        message.append(spec.module.as_str());
        message.append("' subscribes to event '");
        message.append(event.as_str());
        message.append("' that no module emits");
        push_finding(
            out,
            !is_emitted(specs, event),
            ConstraintKind::Event,
            ConstraintSeverity::Error,
            message,
        );
        assert(out.deep_view() =~= start + (done + f(items[i as int])));
        i += 1;
    }
}

fn check_subscriptions(specs: &[ModuleSpec], out: &mut Vec<ConstraintResult>)
    ensures
        final(out).deep_view() == old(out).deep_view() + collected(
            specs.deep_view(),
            subscription_findings(specs.deep_view()),
        ),
{
    let ghost start = out.deep_view();
    let ghost items = specs.deep_view();
    let ghost f = subscription_findings(items);
    proof {
        lemma_collected_all(items, f);
    }
    assert(start + Seq::empty() =~= start);
    let mut i: usize = 0;
    while i < specs.len()
        invariant
            i <= items.len() == specs@.len(),
            items == specs.deep_view(),
            f == subscription_findings(items),
            out.deep_view() == start + collected(items.take(i as int), f),
        decreases items.len() - i,
    {
        assert(items[i as int] == specs@[i as int].deep_view());
        proof {
            lemma_collected_step(items, f, i as int);
        }
        let ghost done = collected(items.take(i as int), f);
        check_subscriptions_of(specs, &specs[i], out);
        assert(out.deep_view() =~= start + (done + f(items[i as int])));
        i += 1;
    }
}

// ─── State ownership ──────────────────────────────────────────────────────────

/// What a spec claims to own: its module, with each state.
pub open spec fn claims_of(spec: ModuleSpecModel) -> Seq<(Seq<char>, Seq<char>)> {
    spec.owns_state.map_values(|s: Seq<char>| (spec.module, s))
}

/// What the first `k` specs claim to own.
pub open spec fn all_claims(specs: Seq<ModuleSpecModel>, k: int) -> Seq<(Seq<char>, Seq<char>)>
    decreases k,
{
    if k <= 0 || k > specs.len() {
        Seq::empty()
    } else {
        all_claims(specs, k - 1) + claims_of(specs[k - 1])
    }
}

/// Lists what specs claim to own.
pub fn ownership_claims(specs: &[ModuleSpec]) -> (r: Vec<(String, String)>)
    ensures
        r.deep_view() == all_claims(specs.deep_view(), specs@.len() as int),
{
    let ghost all = specs.deep_view();
    let mut claims: Vec<(String, String)> = Vec::new();
    let mut i: usize = 0;
    assert(claims.deep_view() =~= Seq::empty());
    while i < specs.len()
        invariant
            i <= specs@.len(),
            all == specs.deep_view(),
            claims.deep_view() == all_claims(all, i as int),
        decreases specs@.len() - i,
    {
        let spec = &specs[i];
        assert(all[i as int] == spec.deep_view());
        let ghost before = claims.deep_view();
        let ghost own = claims_of(spec.deep_view());
        let mut k: usize = 0;
        assert(before + own.take(0) =~= before);
        while k < spec.owns_state.len()
            invariant
                k <= spec.owns_state@.len(),
                own == claims_of(spec.deep_view()),
                claims.deep_view() == before + own.take(k as int),
            decreases spec.owns_state@.len() - k,
        {
            assert(spec.deep_view().owns_state[k as int] == spec.owns_state@[k as int]@);
            append_item(&mut claims, (spec.module.clone(), spec.owns_state[k].clone()));
            assert(before + own.take(k + 1) =~= (before + own.take(k as int)).push(
                own[k as int],
            ));
            k += 1;
        }
        assert(own.take(own.len() as int) =~= own);
        i += 1;
    }
    claims
}

/// What a solver's reply on the ownership of states comes to: nothing without a solver, an
/// error where there is a conflict, and a warning where the solver could not tell.
pub open spec fn ownership_findings(reply: SolverReply) -> Seq<ConstraintResultModel> {
    match reply {
        SolverReply::Missing => Seq::empty(),
        _ => match ownership_conclusion(reply) {
            Ok(_) => Seq::empty(),
            Err(message) => seq![
                ConstraintResultModel {
                    kind: ConstraintKind::Architectural,
                    tier: VerificationTier::Smt,
                    severity: if reply_result(reply) is Unsat {
                        ConstraintSeverity::Error
                    } else {
                        ConstraintSeverity::Warning
                    },
                    message,
                },
            ],
        },
    }
}

/// Decides from a solver's reply what is found of the ownership of states.
pub fn check_ownership(reply: &SolverReply) -> (r: Vec<ConstraintResult>)
    ensures
        r.deep_view() == ownership_findings(*reply),
{
    let mut findings: Vec<ConstraintResult> = Vec::new();
    assert(findings.deep_view() =~= Seq::empty());
    match reply {
        SolverReply::Missing => return findings,
        _ => {},
    }
    let severity = match read_reply(reply) {
        SmtResult::Unsat => ConstraintSeverity::Error,
        _ => ConstraintSeverity::Warning,
    };
    match check_state_ownership_consistency(reply) {
        Ok(_) => {},
        Err(message) => {
            append_item(
                &mut findings,
                ConstraintResult {
                    kind: ConstraintKind::Architectural,
                    tier: VerificationTier::Smt,
                    severity,
                    message,
                },
            );
        },
    }
    assert(findings.deep_view() =~= ownership_findings(*reply));
    findings
}

// ─── Composition ──────────────────────────────────────────────────────────────

/// What is found of the specs of a project together.
pub open spec fn composition_findings(specs: Seq<ModuleSpecModel>, reply: SolverReply) -> Seq<
    ConstraintResultModel,
> {
    collected(specs, subscription_findings(specs)) + ownership_findings(reply)
}

impl SpecChecker {
    /// Checks the specs of a project together: every event that a module subscribes to is
    /// emitted by some module, and no state has two owners, as far as the solver's reply to the
    /// query on their claims tells.
    pub fn check_composition(&self, specs: &[ModuleSpec], reply: &SolverReply) -> (r: CheckResult)
        ensures
            r.deep_view() == result_of(composition_findings(specs.deep_view(), *reply)),
    {
        let mut out: Vec<ConstraintResult> = Vec::new();
        check_subscriptions(specs, &mut out);
        let ghost before = out.deep_view();
        let mut ownership = check_ownership(reply);
        let ghost more = ownership.deep_view();
        out.append(&mut ownership);
        assert(out.deep_view() =~= before + more);
        assert(out.deep_view() =~= composition_findings(specs.deep_view(), *reply));
        make_result(out)
    }
}

// ─── Subsystems ───────────────────────────────────────────────────────────────

/// Whether a member of a subsystem is the module of a spec: by its path, or by its name.
pub open spec fn names_module(member: Seq<char>, spec: ModuleSpecModel) -> bool {
    spec.source_path == Some(member) || spec.module == member || spec.module == module_name_of(
        member,
    )
}

/// Whether a spec is one of a module of the subsystem.
pub open spec fn is_member(sub: SubsystemSpecModel, spec: ModuleSpecModel) -> bool {
    exists|i: int| 0 <= i < sub.modules.len() && names_module(#[trigger] sub.modules[i], spec)
}

/// Whether a module of the subsystem has a spec.
pub open spec fn has_spec(specs: Seq<ModuleSpecModel>, member: Seq<char>) -> bool {
    exists|i: int| 0 <= i < specs.len() && names_module(member, #[trigger] specs[i])
}

/// What a message on a subsystem starts with.
pub open spec fn about(sub: SubsystemSpecModel) -> Seq<char> {
    "Subsystem '"@ + sub.subsystem + "': "@
}

/// What is found of a module that is listed: it must have a spec.
pub open spec fn unmatched_finding(sub: SubsystemSpecModel, specs: Seq<ModuleSpecModel>) -> spec_fn(
    Seq<char>,
) -> Seq<ConstraintResultModel> {
    |member: Seq<char>|
        finding_if(
            !has_spec(specs, member),
            error_finding(
                ConstraintKind::Structure,
                about(sub) + "module '"@ + member + "' has no matching spec"@,
            ),
        )
}

/// Whether the part before the first dot names a module of the subsystem that exposes the part
/// behind it.
pub open spec fn target_exists(
    sub: SubsystemSpecModel,
    specs: Seq<ModuleSpecModel>,
    target: Seq<char>,
) -> bool {
    match text::find_char_from(target, '.', 0) {
        Some(k) => exists|i: int|
            0 <= i < specs.len() && is_member(sub, #[trigger] specs[i]) && specs[i].module
                == target.take(k) && has_key(specs[i].exposes, target.skip(k + 1)),
        None => false,
    }
}

/// What is found of an entity of the interface: what it delegates to must exist.
pub open spec fn delegation_finding(sub: SubsystemSpecModel, specs: Seq<ModuleSpecModel>) -> spec_fn(
    (Seq<char>, SubsystemExposeModel),
) -> Seq<ConstraintResultModel> {
    |entry: (Seq<char>, SubsystemExposeModel)|
        match entry.1.delegates_to {
            Some(target) => finding_if(
                !target_exists(sub, specs, target),
                error_finding(
                    ConstraintKind::Structure,
                    about(sub) + "'"@ + entry.0 + "' delegates to '"@ + target
                        + "', which no member module exposes"@,
                ),
            ),
            None => Seq::empty(),
        }
}

/// What is found of a dependency of a module of the subsystem: it should stay inside.
pub open spec fn leak_finding(sub: SubsystemSpecModel, module: Seq<char>) -> spec_fn(
    Seq<char>,
) -> Seq<ConstraintResultModel> {
    |dep: Seq<char>|
        finding_if(
            !listed(sub.modules, dep),
            warning_finding(
                ConstraintKind::Dependency,
                about(sub) + "module '"@ + module + "' depends on '"@ + dep
                    + "' outside the subsystem"@,
            ),
        )
}

/// What is found of a dependency that matches a forbidden one.
pub open spec fn banned_finding(
    sub: SubsystemSpecModel,
    module: Seq<char>,
    dep: Seq<char>,
) -> spec_fn(Seq<char>) -> Seq<ConstraintResultModel> {
    |banned: Seq<char>|
        finding_if(
            text::contains(dep, banned),
            error_finding(
                ConstraintKind::Dependency,
                about(sub) + "module '"@ + module + "' depends on '"@ + dep
                    + "', which matches forbidden '"@ + banned + "'"@,
            ),
        )
}

/// What is found of a dependency of a module of the subsystem.
pub open spec fn outward_findings(sub: SubsystemSpecModel, module: Seq<char>) -> spec_fn(
    Seq<char>,
) -> Seq<ConstraintResultModel> {
    |dep: Seq<char>|
        leak_finding(sub, module)(dep) + collected(
            sub.forbidden_deps,
            banned_finding(sub, module, dep),
        )
}

/// What is found of the dependencies of a module, if it is one of the subsystem.
pub open spec fn member_findings(sub: SubsystemSpecModel) -> spec_fn(ModuleSpecModel) -> Seq<
    ConstraintResultModel,
> {
    |spec: ModuleSpecModel|
        if is_member(sub, spec) {
            collected(spec.depends_on, outward_findings(sub, spec.module))
        } else {
            Seq::empty()
        }
}

/// What is found of a subsystem.
pub open spec fn subsystem_findings(sub: SubsystemSpecModel, specs: Seq<ModuleSpecModel>) -> Seq<
    ConstraintResultModel,
> {
    collected(sub.modules, unmatched_finding(sub, specs)) + collected(
        sub.exposes,
        delegation_finding(sub, specs),
    ) + collected(specs, member_findings(sub))
}

fn name_matches(member: &str, spec: &ModuleSpec) -> (b: bool)
    ensures
        b == names_module(member@, spec.deep_view()),
{
    let by_path = match &spec.source_path {
        Some(p) => text::same(p.as_str(), member),
        None => false,
    };
    by_path || text::same(spec.module.as_str(), member) || text::same(
        spec.module.as_str(),
        super::extract_module_name(member).as_str(),
    )
}

fn is_member_spec(sub: &SubsystemSpec, spec: &ModuleSpec) -> (b: bool)
    ensures
        b == is_member(sub.deep_view(), spec.deep_view()),
{
    let ghost model = sub.deep_view();
    let mut i: usize = 0;
    while i < sub.modules.len()
        invariant
            i <= sub.modules@.len(),
            model == sub.deep_view(),
            forall|j: int|
                0 <= j < i ==> !names_module(#[trigger] model.modules[j], spec.deep_view()),
        decreases sub.modules@.len() - i,
    {
        assert(model.modules[i as int] == sub.modules@[i as int]@);
        if name_matches(sub.modules[i].as_str(), spec) {
            assert(names_module(model.modules[i as int], spec.deep_view()));
            return true;
        }
        i += 1;
    }
    false
}

fn find_spec(specs: &[ModuleSpec], member: &str) -> (b: bool)
    ensures
        b == has_spec(specs.deep_view(), member@),
{
    let ghost all = specs.deep_view();
    let mut i: usize = 0;
    while i < specs.len()
        invariant
            i <= specs@.len(),
            all == specs.deep_view(),
            forall|j: int| 0 <= j < i ==> !names_module(member@, #[trigger] all[j]),
        decreases specs@.len() - i,
    {
        assert(all[i as int] == specs@[i as int].deep_view());
        if name_matches(member, &specs[i]) {
            assert(names_module(member@, all[i as int]));
            return true;
        }
        i += 1;
    }
    false
}

fn find_target(sub: &SubsystemSpec, specs: &[ModuleSpec], target: &str) -> (b: bool)
    ensures
        b == target_exists(sub.deep_view(), specs.deep_view(), target@),
{
    let ghost model = sub.deep_view();
    let ghost all = specs.deep_view();
    let chars = text::chars_of(target);
    let n: usize = chars.len();
    proof {
        text::lemma_find_char_from(target@, '.', 0);
    }
    let k: usize = match text::find_char(chars.as_slice(), '.', 0) {
        Some(k) => k,
        None => {
            return false;
        },
    };
    let module = text::piece(chars.as_slice(), 0, k);
    let entity = text::piece(chars.as_slice(), k + 1, n);
    assert(module@ =~= target@.take(k as int));
    assert(entity@ =~= target@.skip(k + 1));
    let mut i: usize = 0;
    while i < specs.len()
        invariant
            i <= specs@.len(),
            model == sub.deep_view(),
            all == specs.deep_view(),
            text::find_char_from(target@, '.', 0) == Some(k as int),
            module@ == target@.take(k as int),
            entity@ == target@.skip(k + 1),
            forall|j: int|
                0 <= j < i ==> !(is_member(model, #[trigger] all[j]) && all[j].module == module@
                    && has_key(all[j].exposes, entity@)),
        decreases specs@.len() - i,
    {
        assert(all[i as int] == specs@[i as int].deep_view());
        let spec = &specs[i];
        if is_member_spec(sub, spec) && text::same(spec.module.as_str(), module.as_str())
            && spec.exposes.contains_key(entity.as_str()) {
            assert(is_member(model, all[i as int]));
            return true;
        }
        i += 1;
    }
    false
}

fn start_message(sub: &SubsystemSpec) -> (r: String)
    ensures
        r@ == about(sub.deep_view()),
{
    let mut message = "Subsystem '".to_owned();
    message.append(sub.subsystem.as_str());
    message.append("': ");
    message
}

fn check_members(sub: &SubsystemSpec, specs: &[ModuleSpec], out: &mut Vec<ConstraintResult>)
    ensures
        final(out).deep_view() == old(out).deep_view() + collected(
            sub.deep_view().modules,
            unmatched_finding(sub.deep_view(), specs.deep_view()),
        ),
{
    let ghost start = out.deep_view();
    let ghost items = sub.deep_view().modules;
    let ghost f = unmatched_finding(sub.deep_view(), specs.deep_view());
    proof {
        lemma_collected_all(items, f);
    }
    assert(start + Seq::empty() =~= start);
    let mut i: usize = 0;
    while i < sub.modules.len()
        invariant
            i <= items.len() == sub.modules@.len(),
            items == sub.deep_view().modules,
            f == unmatched_finding(sub.deep_view(), specs.deep_view()),
            out.deep_view() == start + collected(items.take(i as int), f),
        decreases items.len() - i,
    {
        let member = sub.modules[i].as_str();
        assert(items[i as int] == member@);
        proof {
            lemma_collected_step(items, f, i as int);
        }
        let ghost done = collected(items.take(i as int), f);
        let mut message = start_message(sub);
        message.append("module '");
        message.append(member);
        message.append("' has no matching spec");
        push_finding(
            out,
            !find_spec(specs, member),
            ConstraintKind::Structure,
            ConstraintSeverity::Error,
            message,
        );
        assert(out.deep_view() =~= start + (done + f(items[i as int])));
        i += 1;
    }
}

fn check_delegations(sub: &SubsystemSpec, specs: &[ModuleSpec], out: &mut Vec<ConstraintResult>)
    ensures
        final(out).deep_view() == old(out).deep_view() + collected(
            sub.deep_view().exposes,
            delegation_finding(sub.deep_view(), specs.deep_view()),
        ),
{
    let ghost start = out.deep_view();
    let ghost items = sub.deep_view().exposes;
    let ghost f = delegation_finding(sub.deep_view(), specs.deep_view());
    proof {
        lemma_collected_all(items, f);
    }
    assert(start + Seq::empty() =~= start);
    let mut i: usize = 0;
    while i < sub.exposes.len()
        invariant
            i <= items.len(),
            items == sub.deep_view().exposes,
            items == sub.exposes.deep_view(),
            f == delegation_finding(sub.deep_view(), specs.deep_view()),
            out.deep_view() == start + collected(items.take(i as int), f),
        decreases items.len() - i,
    {
        let name = sub.exposes.key(i);
        let entity = sub.exposes.value(i);
        assert(items[i as int] == (name@, entity.deep_view()));
        proof {
            lemma_collected_step(items, f, i as int);
        }
        let ghost done = collected(items.take(i as int), f);
        match &entity.delegates_to {
            Some(target) => {
                let mut message = start_message(sub);
                message.append("'");
                message.append(name);
                message.append("' delegates to '");
                message.append(target.as_str());
                message.append("', which no member module exposes");
                push_finding(
                    out,
                    !find_target(sub, specs, target.as_str()),
                    ConstraintKind::Structure,
                    ConstraintSeverity::Error,
                    message,
                );
            },
            None => {},
        }
        assert(out.deep_view() =~= start + (done + f(items[i as int])));
        i += 1;
    }
}

fn check_banned(sub: &SubsystemSpec, module: &str, dep: &str, out: &mut Vec<ConstraintResult>)
    ensures
        final(out).deep_view() == old(out).deep_view() + collected(
            sub.deep_view().forbidden_deps,
            banned_finding(sub.deep_view(), module@, dep@),
        ),
{
    let ghost start = out.deep_view();
    let ghost items = sub.deep_view().forbidden_deps;
    let ghost f = banned_finding(sub.deep_view(), module@, dep@);
    proof {
        lemma_collected_all(items, f);
    }
    assert(start + Seq::empty() =~= start);
    let mut i: usize = 0;
    while i < sub.forbidden_deps.len()
        invariant
            i <= items.len() == sub.forbidden_deps@.len(),
            items == sub.deep_view().forbidden_deps,
            f == banned_finding(sub.deep_view(), module@, dep@),
            out.deep_view() == start + collected(items.take(i as int), f),
        decreases items.len() - i,
    {
        let banned = sub.forbidden_deps[i].as_str();
        assert(items[i as int] == banned@);
        proof {
            lemma_collected_step(items, f, i as int);
        }
        let ghost done = collected(items.take(i as int), f);
        let mut message = start_message(sub);
        message.append("module '");
        message.append(module);
        message.append("' depends on '");
        message.append(dep);
        message.append("', which matches forbidden '");
        message.append(banned);
        message.append("'");
        push_finding(
            out,
            text::text_contains(dep, banned),
            ConstraintKind::Dependency,
            ConstraintSeverity::Error,
            message,
        );
        assert(out.deep_view() =~= start + (done + f(items[i as int])));
        i += 1;
    }
}

fn check_outward(sub: &SubsystemSpec, spec: &ModuleSpec, out: &mut Vec<ConstraintResult>)
    ensures
        final(out).deep_view() == old(out).deep_view() + collected(
            spec.deep_view().depends_on,
            outward_findings(sub.deep_view(), spec.module@),
        ),
{
    let ghost start = out.deep_view();
    let ghost items = spec.deep_view().depends_on;
    let ghost f = outward_findings(sub.deep_view(), spec.module@);
    proof {
        lemma_collected_all(items, f);
    }
    assert(start + Seq::empty() =~= start);
    let mut i: usize = 0;
    while i < spec.depends_on.len()
        invariant
            i <= items.len() == spec.depends_on@.len(),
            items == spec.deep_view().depends_on,
            f == outward_findings(sub.deep_view(), spec.module@),
            out.deep_view() == start + collected(items.take(i as int), f),
        decreases items.len() - i,
    {
        let dep = spec.depends_on[i].as_str();
        assert(items[i as int] == dep@);
        proof {
            lemma_collected_step(items, f, i as int);
        }
        let ghost done = collected(items.take(i as int), f);
        let mut message = start_message(sub);
        message.append("module '");
        message.append(spec.module.as_str());
        message.append("' depends on '");
        message.append(dep);
        message.append("' outside the subsystem");
        push_finding(
            out,
            !find_listed(&sub.modules, dep),
            ConstraintKind::Dependency,
            ConstraintSeverity::Warning,
            message,
        );
        check_banned(sub, spec.module.as_str(), dep, out);
        assert(out.deep_view() =~= start + (done + f(items[i as int])));
        i += 1;
    }
}

impl SpecChecker {
    /// Checks a subsystem: its modules have specs, what its interface delegates to exists, its
    /// modules depend only on each other, and on nothing forbidden.
    pub fn check_subsystem(&self, subsystem: &SubsystemSpec, specs: &[ModuleSpec]) -> (r:
        CheckResult)
        ensures
            r.deep_view() == result_of(
                subsystem_findings(subsystem.deep_view(), specs.deep_view()),
            ),
    {
        let mut out: Vec<ConstraintResult> = Vec::new();
        let ghost sub = subsystem.deep_view();
        let ghost items = specs.deep_view();
        let ghost f = member_findings(sub);
        check_members(subsystem, specs, &mut out);
        check_delegations(subsystem, specs, &mut out);
        let ghost start = out.deep_view();
        proof {
            lemma_collected_all(items, f);
        }
        assert(start + Seq::empty() =~= start);
        let mut i: usize = 0;
        while i < specs.len()
            invariant
                i <= items.len() == specs@.len(),
                items == specs.deep_view(),
                sub == subsystem.deep_view(),
                f == member_findings(sub),
                out.deep_view() == start + collected(items.take(i as int), f),
            decreases items.len() - i,
        {
            assert(items[i as int] == specs@[i as int].deep_view());
            proof {
                lemma_collected_step(items, f, i as int);
            }
            let ghost done = collected(items.take(i as int), f);
            if is_member_spec(subsystem, &specs[i]) {
                check_outward(subsystem, &specs[i], &mut out);
            }
            assert(out.deep_view() =~= start + (done + f(items[i as int])));
            i += 1;
        }
        assert(out.deep_view() =~= subsystem_findings(sub, items));
        make_result(out)
    }
}

// ─── Other projects ───────────────────────────────────────────────────────────

/// What is found of a dependency on a module of another project: the project must be known and
/// the module public. Projects with errors of their own are skipped.
pub open spec fn boundary_finding(
    graph: DependencyGraphModel,
    failing: Seq<Seq<char>>,
    module: Seq<char>,
) -> spec_fn(Seq<char>) -> Seq<ConstraintResultModel> {
    |dep: Seq<char>|
        match cross_ref(dep) {
            Some((project, local)) => if failing.contains(project) {
                Seq::empty()
            } else {
                match graph.project(project) {
                    Some(p) => finding_if(
                        !p.is_public(local),
                        error_finding(
                            ConstraintKind::Dependency,
                            "Module '"@ + module + "' depends on '"@ + dep
                                + "', which is not public"@,
                        ),
                    ),
                    None => seq![
                        error_finding(
                            ConstraintKind::Dependency,
                            "Module '"@ + module + "' depends on '"@ + dep
                                + "' of an unknown project"@,
                        ),
                    ],
                }
            },
            None => Seq::empty(),
        }
}

/// What is found of what a module uses of other projects.
pub open spec fn boundary_findings(
    graph: DependencyGraphModel,
    failing: Seq<Seq<char>>,
) -> spec_fn(ModuleSpecModel) -> Seq<ConstraintResultModel> {
    |spec: ModuleSpecModel|
        collected(spec.depends_on, boundary_finding(graph, failing, spec.module))
}

fn check_boundaries_of(
    graph: &DependencyGraph,
    failing: &Vec<String>,
    spec: &ModuleSpec,
    out: &mut Vec<ConstraintResult>,
)
    requires
        graph.wf(),
    ensures
        final(out).deep_view() == old(out).deep_view() + boundary_findings(
            graph.deep_view(),
            failing.deep_view(),
        )(spec.deep_view()),
{
    let ghost start = out.deep_view();
    let ghost items = spec.deep_view().depends_on;
    let ghost f = boundary_finding(graph.deep_view(), failing.deep_view(), spec.module@);
    proof {
        lemma_collected_all(items, f);
    }
    assert(start + Seq::empty() =~= start);
    let mut i: usize = 0;
    while i < spec.depends_on.len()
        invariant
            graph.wf(),
            i <= items.len() == spec.depends_on@.len(),
            items == spec.deep_view().depends_on,
            f == boundary_finding(graph.deep_view(), failing.deep_view(), spec.module@),
            out.deep_view() == start + collected(items.take(i as int), f),
        decreases items.len() - i,
    {
        let dep = spec.depends_on[i].as_str();
        assert(items[i as int] == dep@);
        proof {
            lemma_collected_step(items, f, i as int);
        }
        let ghost done = collected(items.take(i as int), f);
        match DependencyGraph::parse_cross_ref(dep) {
            Some((project, local)) => {
                if !list_contains(failing.as_slice(), &project) {
                    let mut message = "Module '".to_owned();
                    message.append(spec.module.as_str());
                    message.append("' depends on '");
                    message.append(dep);
                    match graph.get(project.as_str()) {
                        Some(p) => {
                            message.append("', which is not public");
                            push_finding(
                                out,
                                !p.is_module_public(local.as_str()),
                                ConstraintKind::Dependency,
                                ConstraintSeverity::Error,
                                message,
                            );
                        },
                        None => {
                            message.append("' of an unknown project");
                            push_finding(
                                out,
                                true,
                                ConstraintKind::Dependency,
                                ConstraintSeverity::Error,
                                message,
                            );
                        },
                    }
                }
            },
            None => {},
        }
        assert(out.deep_view() =~= start + (done + f(items[i as int])));
        i += 1;
    }
}

impl SpecChecker {
    /// Checks what the modules of a project use of other projects. `failing` names the projects
    /// that have errors of their own.
    pub fn check_cross_project_boundaries(
        &self,
        specs: &[ModuleSpec],
        graph: &DependencyGraph,
        failing: &Vec<String>,
    ) -> (r: CheckResult)
        requires
            graph.wf(),
        ensures
            r.deep_view() == result_of(
                collected(
                    specs.deep_view(),
                    boundary_findings(graph.deep_view(), failing.deep_view()),
                ),
            ),
    {
        let mut out: Vec<ConstraintResult> = Vec::new();
        let ghost items = specs.deep_view();
        let ghost f = boundary_findings(graph.deep_view(), failing.deep_view());
        proof {
            lemma_collected_all(items, f);
        }
        assert(out.deep_view() =~= Seq::empty());
        let mut i: usize = 0;
        while i < specs.len()
            invariant
                graph.wf(),
                i <= items.len() == specs@.len(),
                items == specs.deep_view(),
                f == boundary_findings(graph.deep_view(), failing.deep_view()),
                out.deep_view() == collected(items.take(i as int), f),
            decreases items.len() - i,
        {
            assert(items[i as int] == specs@[i as int].deep_view());
            proof {
                lemma_collected_step(items, f, i as int);
            }
            check_boundaries_of(graph, failing, &specs[i], &mut out);
            i += 1;
        }
        make_result(out)
    }
}

// ─── Laws ─────────────────────────────────────────────────────────────────────

/// Nothing is found of subscriptions exactly where every event that a module subscribes to is
/// emitted by some module.
pub proof fn subscriptions_have_emitters(specs: Seq<ModuleSpecModel>)
    ensures
        collected(specs, subscription_findings(specs)).len() == 0 <==> forall|i: int, k: int|
            0 <= i < specs.len() && 0 <= k < specs[i].subscribes.len() ==> emitted(
                specs,
                #[trigger] specs[i].subscribes[k],
            ),
{
    let f = subscription_findings(specs);
    lemma_collected_empty(specs, f);
    assert forall|i: int| 0 <= i < specs.len() implies (f(#[trigger] specs[i]).len() == 0 <==> forall|
        k: int,
    |
        0 <= k < specs[i].subscribes.len() ==> emitted(
            specs,
            #[trigger] specs[i].subscribes[k],
        )) by {
        let g = subscription_finding(specs, specs[i].module);
        lemma_collected_empty(specs[i].subscribes, g);
        assert forall|k: int| 0 <= k < specs[i].subscribes.len() implies (g(
            #[trigger] specs[i].subscribes[k],
        ).len() == 0 <==> emitted(specs, specs[i].subscribes[k])) by {}
    }
}

/// Whether a subsystem is sound: its modules have specs, what its interface delegates to
/// exists, and its modules depend only on each other, and on nothing forbidden.
pub open spec fn is_sound(sub: SubsystemSpecModel, specs: Seq<ModuleSpecModel>) -> bool {
    &&& forall|i: int| 0 <= i < sub.modules.len() ==> has_spec(specs, #[trigger] sub.modules[i])
    &&& forall|i: int|
        0 <= i < sub.exposes.len() ==> ((#[trigger] sub.exposes[i]).1.delegates_to matches Some(
            target,
        ) ==> target_exists(sub, specs, target))
    &&& forall|i: int, k: int|
        0 <= i < specs.len() && is_member(sub, specs[i]) && 0 <= k < specs[i].depends_on.len()
            ==> stays_inside(sub, #[trigger] specs[i].depends_on[k])
}

/// Whether a dependency is one on a module of the subsystem, and matches nothing forbidden.
pub open spec fn stays_inside(sub: SubsystemSpecModel, dep: Seq<char>) -> bool {
    &&& listed(sub.modules, dep)
    &&& forall|f: int|
        0 <= f < sub.forbidden_deps.len() ==> !text::contains(dep, #[trigger] sub.forbidden_deps[f])
}

/// Nothing is found of a subsystem exactly where it is sound.
pub proof fn sound_subsystems_have_no_findings(
    sub: SubsystemSpecModel,
    specs: Seq<ModuleSpecModel>,
)
    ensures
        subsystem_findings(sub, specs).len() == 0 <==> is_sound(sub, specs),
{
    let f = unmatched_finding(sub, specs);
    let g = delegation_finding(sub, specs);
    let h = member_findings(sub);
    lemma_collected_empty(sub.modules, f);
    lemma_collected_empty(sub.exposes, g);
    lemma_collected_empty(specs, h);
    assert forall|i: int| 0 <= i < sub.modules.len() implies (f(#[trigger] sub.modules[i]).len() == 0
        <==> has_spec(specs, sub.modules[i])) by {}
    assert forall|i: int| 0 <= i < sub.exposes.len() implies (g(#[trigger] sub.exposes[i]).len() == 0
        <==> (sub.exposes[i].1.delegates_to matches Some(target) ==> target_exists(
        sub,
        specs,
        target,
    ))) by {}
    assert forall|i: int| 0 <= i < specs.len() implies (h(#[trigger] specs[i]).len() == 0 <==> (
    is_member(sub, specs[i]) ==> forall|k: int|
        0 <= k < specs[i].depends_on.len() ==> stays_inside(
            sub,
            #[trigger] specs[i].depends_on[k],
        ))) by {
        let deps = specs[i].depends_on;
        let out = outward_findings(sub, specs[i].module);
        lemma_collected_empty(deps, out);
        assert forall|k: int| 0 <= k < deps.len() implies (out(#[trigger] deps[k]).len() == 0
            <==> stays_inside(sub, deps[k])) by {
            let banned = banned_finding(sub, specs[i].module, deps[k]);
            lemma_collected_empty(sub.forbidden_deps, banned);
            assert forall|x: int| 0 <= x < sub.forbidden_deps.len() implies (banned(
                #[trigger] sub.forbidden_deps[x],
            ).len() == 0 <==> !text::contains(deps[k], sub.forbidden_deps[x])) by {}
        }
    }
}

/// A dependency on a module of another project has no finding exactly where the project has
/// errors of its own, or is known and has that module as a public one.
pub proof fn boundaries_are_public(
    graph: DependencyGraphModel,
    failing: Seq<Seq<char>>,
    module: Seq<char>,
    dep: Seq<char>,
)
    ensures
        boundary_finding(graph, failing, module)(dep).len() == 0 <==> (cross_ref(dep) matches Some(
            (project, local),
        ) ==> failing.contains(project) || (graph.project(project) matches Some(p)
            && p.is_public(local))),
{
}

/// The claims of specs are consistent exactly where no two specs of different modules own the
/// same state.
pub proof fn claims_are_consistent(specs: Seq<ModuleSpecModel>)
    ensures
        ownership_consistent(all_claims(specs, specs.len() as int)) <==> (forall|
            i: int,
            j: int,
            state: Seq<char>,
        |
            0 <= i < specs.len() && 0 <= j < specs.len() && #[trigger] specs[i].owns_state.contains(
                state,
            ) && #[trigger] specs[j].owns_state.contains(state) ==> specs[i].module
                == specs[j].module),
{
    let n = specs.len() as int;
    let claims = all_claims(specs, n);
    lemma_claims(specs, n);
    if ownership_consistent(claims) {
        assert forall|i: int, j: int, state: Seq<char>|
            0 <= i < n && 0 <= j < n && #[trigger] specs[i].owns_state.contains(state)
                && #[trigger] specs[j].owns_state.contains(state) implies specs[i].module
            == specs[j].module by {
            assert(claimed_by(specs[i], (specs[i].module, state)));
            assert(claimed_by(specs[j], (specs[j].module, state)));
            assert(claims.contains((specs[i].module, state)));
            assert(claims.contains((specs[j].module, state)));
            let a = choose|a: int| 0 <= a < claims.len() && claims[a] == (specs[i].module, state);
            let b = choose|b: int| 0 <= b < claims.len() && claims[b] == (specs[j].module, state);
            assert(claims[a].1 == claims[b].1);
        }
    }
    if forall|i: int, j: int, state: Seq<char>|
        0 <= i < n && 0 <= j < n && #[trigger] specs[i].owns_state.contains(state)
            && #[trigger] specs[j].owns_state.contains(state) ==> specs[i].module
            == specs[j].module {
        assert forall|a: int, b: int|
            0 <= a < claims.len() && 0 <= b < claims.len() && #[trigger] claims[a].1
                == #[trigger] claims[b].1 implies claims[a].0 == claims[b].0 by {
            assert(claims.contains(claims[a]) && claims.contains(claims[b]));
            let i = choose|i: int|
                0 <= i < n && #[trigger] claimed_by(specs[i], claims[a]);
            let j = choose|j: int|
                0 <= j < n && #[trigger] claimed_by(specs[j], claims[b]);
            assert(specs[j].owns_state.contains(claims[a].1));
        }
    }
}

/// Whether a claim is one of a spec.
pub open spec fn claimed_by(spec: ModuleSpecModel, claim: (Seq<char>, Seq<char>)) -> bool {
    spec.module == claim.0 && spec.owns_state.contains(claim.1)
}

proof fn lemma_claims(specs: Seq<ModuleSpecModel>, k: int)
    requires
        0 <= k <= specs.len(),
    ensures
        forall|claim: (Seq<char>, Seq<char>)|
            #![trigger all_claims(specs, k).contains(claim)]
            all_claims(specs, k).contains(claim) <==> exists|i: int|
                0 <= i < k && #[trigger] claimed_by(specs[i], claim),
    decreases k,
{
    let now = all_claims(specs, k);
    if k > 0 {
        lemma_claims(specs, k - 1);
        let before = all_claims(specs, k - 1);
        let own = claims_of(specs[k - 1]);
        assert forall|claim: (Seq<char>, Seq<char>)|
            #![trigger now.contains(claim)]
            now.contains(claim) <==> exists|i: int|
                0 <= i < k && #[trigger] claimed_by(specs[i], claim) by {
            if now.contains(claim) {
                let p = choose|p: int| 0 <= p < now.len() && now[p] == claim;
                if p < before.len() {
                    assert(before[p] == claim);
                    assert(before.contains(claim));
                } else {
                    assert(own[p - before.len()] == claim);
                    assert(specs[k - 1].owns_state[p - before.len()] == claim.1);
                    assert(claimed_by(specs[k - 1], claim));
                }
            }
            if exists|i: int|
                0 <= i < k && #[trigger] claimed_by(specs[i], claim) {
                let i = choose|i: int|
                    0 <= i < k && #[trigger] claimed_by(specs[i], claim);
                if i < k - 1 {
                    assert(before.contains(claim));
                    let p = choose|p: int| 0 <= p < before.len() && before[p] == claim;
                    assert(now[p] == claim);
                } else {
                    let states = specs[k - 1].owns_state;
                    let p = choose|p: int| 0 <= p < states.len() && states[p] == claim.1;
                    assert(own[p] == claim);
                    assert(now[before.len() + p] == claim);
                }
            }
        }
    }
}

} // verus!

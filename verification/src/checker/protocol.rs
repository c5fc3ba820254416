//! Checking protocols: state machines over the functions of a module.
use vstd::prelude::*;

use super::{
    add_finding, collected, error_finding, finding_if, lemma_collected_all, lemma_collected_step,
    warning_finding, ConstraintKind, ConstraintResult, ConstraintResultModel, ConstraintSeverity,
};
use crate::data::list_contains;
use crate::extractors::{ExtractedModule, ExtractedModuleModel};
use crate::spec::{ModuleSpec, ModuleSpecModel, ProtocolSpec, ProtocolSpecModel, TransitionModel};

verus! {

pub open spec fn protocol_error(
    condition: bool,
    before: Seq<char>,
    name: Seq<char>,
    after: Seq<char>,
) -> Seq<ConstraintResultModel> {
    finding_if(condition, error_finding(ConstraintKind::Protocol, before + name + after))
}

pub open spec fn protocol_warning(
    condition: bool,
    before: Seq<char>,
    name: Seq<char>,
    after: Seq<char>,
) -> Seq<ConstraintResultModel> {
    finding_if(condition, warning_finding(ConstraintKind::Protocol, before + name + after))
}

/// Whether a state is missing in the list of states, where there is one.
pub open spec fn unknown_state(p: ProtocolSpecModel, state: Seq<char>) -> bool {
    p.states.len() != 0 && !p.states.contains(state)
}

/// Whether the module has the function, public or private.
pub open spec fn has_function(m: ExtractedModuleModel, name: Seq<char>) -> bool {
    m.public_functions.contains(name) || m.private_functions.contains(name)
}

pub open spec fn terminal_findings(p: ProtocolSpecModel) -> spec_fn(Seq<char>) -> Seq<
    ConstraintResultModel,
> {
    |state: Seq<char>|
        protocol_error(
            unknown_state(p, state),
            "Protocol terminal state '"@,
            state,
            "' is not in states list"@,
        )
}

pub open spec fn transition_findings(p: ProtocolSpecModel, m: ExtractedModuleModel) -> spec_fn(
    TransitionModel,
) -> Seq<ConstraintResultModel> {
    |t: TransitionModel|
        protocol_error(
            unknown_state(p, t.from),
            "Protocol transition references unknown state '"@,
            t.from,
            "'"@,
        ) + protocol_error(
            unknown_state(p, t.to),
            "Protocol transition references unknown state '"@,
            t.to,
            "'"@,
        ) + protocol_error(
            !has_function(m, t.call),
            "Protocol transition references function '"@,
            t.call,
            "' not found in implementation"@,
        )
}

pub open spec fn pair_findings(m: ExtractedModuleModel) -> spec_fn((Seq<char>, Seq<char>)) -> Seq<
    ConstraintResultModel,
> {
    |pair: (Seq<char>, Seq<char>)|
        protocol_error(
            !has_function(m, pair.0),
            "Balanced pair references function '"@,
            pair.0,
            "' not found in implementation"@,
        ) + protocol_error(
            !has_function(m, pair.1),
            "Balanced pair references function '"@,
            pair.1,
            "' not found in implementation"@,
        )
}

/// Whether a state is the initial one, or some transition leads to it.
pub open spec fn is_reached(p: ProtocolSpecModel, state: Seq<char>) -> bool {
    p.initial == state || exists|i: int|
        0 <= i < p.transitions.len() && (#[trigger] p.transitions[i]).to == state
}

/// Whether some transition leads out of a state.
pub open spec fn is_left(p: ProtocolSpecModel, state: Seq<char>) -> bool {
    exists|i: int| 0 <= i < p.transitions.len() && (#[trigger] p.transitions[i]).from == state
}

pub open spec fn unreachable_findings(p: ProtocolSpecModel) -> spec_fn(Seq<char>) -> Seq<
    ConstraintResultModel,
> {
    |state: Seq<char>|
        protocol_warning(
            !is_reached(p, state),
            "Protocol state '"@,
            state,
            "' is unreachable (no transition leads to it)"@,
        )
}

pub open spec fn dead_end_findings(p: ProtocolSpecModel) -> spec_fn(Seq<char>) -> Seq<
    ConstraintResultModel,
> {
    |state: Seq<char>|
        protocol_warning(
            !p.terminal.contains(state) && !is_left(p, state),
            "Protocol state '"@,
            state,
            "' is a dead end (no outgoing transitions and not terminal)"@,
        )
}

/// What is found of a protocol: states that are not listed, functions that do not exist,
/// states that nothing leads to, and states that nothing leads out of.
pub open spec fn protocol_findings(spec: ModuleSpecModel, m: ExtractedModuleModel) -> Seq<
    ConstraintResultModel,
> {
    match spec.protocol {
        None => Seq::empty(),
        Some(p) => protocol_error(
            unknown_state(p, p.initial),
            "Protocol initial state '"@,
            p.initial,
            "' is not in states list"@,
        ) + collected(p.terminal, terminal_findings(p)) + collected(
            p.transitions,
            transition_findings(p, m),
        ) + collected(p.balanced_pairs, pair_findings(m)) + collected(
            p.states,
            unreachable_findings(p),
        ) + collected(p.states, dead_end_findings(p)),
    }
}

fn is_unknown_state(p: &ProtocolSpec, state: &String) -> (b: bool)
    ensures
        b == unknown_state(p.deep_view(), state@),
{
    p.states.len() != 0 && !list_contains(p.states.as_slice(), state)
}

fn find_function(extracted: &ExtractedModule, name: &String) -> (b: bool)
    ensures
        b == has_function(extracted.deep_view(), name@),
{
    list_contains(extracted.public_functions.as_slice(), name) || list_contains(
        extracted.private_functions.as_slice(),
        name,
    )
}

fn reached(p: &ProtocolSpec, state: &String) -> (b: bool)
    ensures
        b == is_reached(p.deep_view(), state@),
{
    if p.initial == *state {
        return true;
    }
    let ghost ts = p.transitions.deep_view();
    let mut i: usize = 0;
    while i < p.transitions.len()
        invariant
            i <= ts.len(),
            ts == p.transitions.deep_view(),
            forall|j: int| 0 <= j < i ==> (#[trigger] ts[j]).to != state@,
        decreases ts.len() - i,
    {
        assert(ts[i as int] == p.transitions@[i as int].deep_view());
        if p.transitions[i].to == *state {
            assert(p.deep_view().transitions[i as int].to == state@);
            return true;
        }
        i += 1;
    }
    false
}

fn left(p: &ProtocolSpec, state: &String) -> (b: bool)
    ensures
        b == is_left(p.deep_view(), state@),
{
    let ghost ts = p.transitions.deep_view();
    let mut i: usize = 0;
    while i < p.transitions.len()
        invariant
            i <= ts.len(),
            ts == p.transitions.deep_view(),
            forall|j: int| 0 <= j < i ==> (#[trigger] ts[j]).from != state@,
        decreases ts.len() - i,
    {
        assert(ts[i as int] == p.transitions@[i as int].deep_view());
        if p.transitions[i].from == *state {
            assert(p.deep_view().transitions[i as int].from == state@);
            return true;
        }
        i += 1;
    }
    false
}

fn add_protocol_error(
    out: &mut Vec<ConstraintResult>,
    condition: bool,
    before: &str,
    name: &str,
    after: &str,
)
    ensures
        final(out).deep_view() == old(out).deep_view() + protocol_error(
            condition,
            before@,
            name@,
            after@,
        ),
{
    add_finding(
        out,
        condition,
        ConstraintKind::Protocol,
        ConstraintSeverity::Error,
        before,
        name,
        after,
    );
}

fn check_terminal(p: &ProtocolSpec, out: &mut Vec<ConstraintResult>)
    ensures
        final(out).deep_view() == old(out).deep_view() + collected(
            p.deep_view().terminal,
            terminal_findings(p.deep_view()),
        ),
{
    let ghost start = out.deep_view();
    let ghost items = p.terminal.deep_view();
    let ghost f = terminal_findings(p.deep_view());
    proof {
        lemma_collected_all(items, f);
    }
    assert(start + Seq::empty() =~= start);
    let mut i: usize = 0;
    while i < p.terminal.len()
        invariant
            i <= items.len(),
            items == p.terminal.deep_view(),
            f == terminal_findings(p.deep_view()),
            out.deep_view() == start + collected(items.take(i as int), f),
        decreases items.len() - i,
    {
        proof {
            lemma_collected_step(items, f, i as int);
        }
        let ghost done = collected(items.take(i as int), f);
        let state = &p.terminal[i];
        assert(items[i as int] == state@);
        add_protocol_error(
            out,
            is_unknown_state(p, state),
            "Protocol terminal state '",
            state.as_str(),
            "' is not in states list",
        );
        assert(out.deep_view() =~= start + (done + f(items[i as int])));
        i += 1;
    }
}

fn check_transitions(
    p: &ProtocolSpec,
    extracted: &ExtractedModule,
    out: &mut Vec<ConstraintResult>,
)
    ensures
        final(out).deep_view() == old(out).deep_view() + collected(
            p.deep_view().transitions,
            transition_findings(p.deep_view(), extracted.deep_view()),
        ),
{
    let ghost start = out.deep_view();
    let ghost items = p.transitions.deep_view();
    let ghost f = transition_findings(p.deep_view(), extracted.deep_view());
    proof {
        lemma_collected_all(items, f);
    }
    assert(start + Seq::empty() =~= start);
    let mut i: usize = 0;
    while i < p.transitions.len()
        invariant
            i <= items.len(),
            items == p.transitions.deep_view(),
            f == transition_findings(p.deep_view(), extracted.deep_view()),
            out.deep_view() == start + collected(items.take(i as int), f),
        decreases items.len() - i,
    {
        proof {
            lemma_collected_step(items, f, i as int);
        }
        let ghost done = collected(items.take(i as int), f);
        let t = &p.transitions[i];
        assert(items[i as int] == t.deep_view());
        add_protocol_error(
            out,
            is_unknown_state(p, &t.from),
            "Protocol transition references unknown state '",
            t.from.as_str(),
            "'",
        );
        add_protocol_error(
            out,
            is_unknown_state(p, &t.to),
            "Protocol transition references unknown state '",
            t.to.as_str(),
            "'",
        );
        add_protocol_error(
            out,
            !find_function(extracted, &t.call),
            "Protocol transition references function '",
            t.call.as_str(),
            "' not found in implementation",
        );
        assert(out.deep_view() =~= start + (done + f(items[i as int])));
        i += 1;
    }
}

fn check_pairs(p: &ProtocolSpec, extracted: &ExtractedModule, out: &mut Vec<ConstraintResult>)
    ensures
        final(out).deep_view() == old(out).deep_view() + collected(
            p.deep_view().balanced_pairs,
            pair_findings(extracted.deep_view()),
        ),
{
    let ghost start = out.deep_view();
    let ghost items = p.balanced_pairs.deep_view();
    let ghost f = pair_findings(extracted.deep_view());
    proof {
        lemma_collected_all(items, f);
    }
    assert(start + Seq::empty() =~= start);
    let mut i: usize = 0;
    while i < p.balanced_pairs.len()
        invariant
            i <= items.len(),
            items == p.balanced_pairs.deep_view(),
            f == pair_findings(extracted.deep_view()),
            out.deep_view() == start + collected(items.take(i as int), f),
        decreases items.len() - i,
    {
        proof {
            lemma_collected_step(items, f, i as int);
        }
        let ghost done = collected(items.take(i as int), f);
        let pair = &p.balanced_pairs[i];
        assert(items[i as int] == pair.deep_view());
        add_protocol_error(
            out,
            !find_function(extracted, &pair.0),
            "Balanced pair references function '",
            pair.0.as_str(),
            "' not found in implementation",
        );
        add_protocol_error(
            out,
            !find_function(extracted, &pair.1),
            "Balanced pair references function '",
            pair.1.as_str(),
            "' not found in implementation",
        );
        assert(out.deep_view() =~= start + (done + f(items[i as int])));
        i += 1;
    }
}

fn check_unreachable(p: &ProtocolSpec, out: &mut Vec<ConstraintResult>)
    ensures
        final(out).deep_view() == old(out).deep_view() + collected(
            p.deep_view().states,
            unreachable_findings(p.deep_view()),
        ),
{
    let ghost start = out.deep_view();
    let ghost items = p.states.deep_view();
    let ghost f = unreachable_findings(p.deep_view());
    proof {
        lemma_collected_all(items, f);
    }
    assert(start + Seq::empty() =~= start);
    let mut i: usize = 0;
    while i < p.states.len()
        invariant
            i <= items.len(),
            items == p.states.deep_view(),
            f == unreachable_findings(p.deep_view()),
            out.deep_view() == start + collected(items.take(i as int), f),
        decreases items.len() - i,
    {
        proof {
            lemma_collected_step(items, f, i as int);
        }
        let ghost done = collected(items.take(i as int), f);
        let state = &p.states[i];
        assert(items[i as int] == state@);
        add_finding(
            out,
            !reached(p, state),
            ConstraintKind::Protocol,
            ConstraintSeverity::Warning,
            "Protocol state '",
            state.as_str(),
            "' is unreachable (no transition leads to it)",
        );
        assert(out.deep_view() =~= start + (done + f(items[i as int])));
        i += 1;
    }
}

fn check_dead_ends(p: &ProtocolSpec, out: &mut Vec<ConstraintResult>)
    ensures
        final(out).deep_view() == old(out).deep_view() + collected(
            p.deep_view().states,
            dead_end_findings(p.deep_view()),
        ),
{
    let ghost start = out.deep_view();
    let ghost items = p.states.deep_view();
    let ghost f = dead_end_findings(p.deep_view());
    proof {
        lemma_collected_all(items, f);
    }
    assert(start + Seq::empty() =~= start);
    let mut i: usize = 0;
    while i < p.states.len()
        invariant
            i <= items.len(),
            items == p.states.deep_view(),
            f == dead_end_findings(p.deep_view()),
            out.deep_view() == start + collected(items.take(i as int), f),
        decreases items.len() - i,
    {
        proof {
            lemma_collected_step(items, f, i as int);
        }
        let ghost done = collected(items.take(i as int), f);
        let state = &p.states[i];
        assert(items[i as int] == state@);
        let dead = !list_contains(p.terminal.as_slice(), state) && !left(p, state);
        add_finding(
            out,
            dead,
            ConstraintKind::Protocol,
            ConstraintSeverity::Warning,
            "Protocol state '",
            state.as_str(),
            "' is a dead end (no outgoing transitions and not terminal)",
        );
        assert(out.deep_view() =~= start + (done + f(items[i as int])));
        i += 1;
    }
}

/// Checks the protocol of a module: its state machine, and that its functions exist.
pub(crate) fn check_protocol(
    spec: &ModuleSpec,
    extracted: &ExtractedModule,
    out: &mut Vec<ConstraintResult>,
)
    ensures
        final(out).deep_view() == old(out).deep_view() + protocol_findings(
            spec.deep_view(),
            extracted.deep_view(),
        ),
{
    let ghost start = out.deep_view();
    assert(start + Seq::empty() =~= start);
    let p = match &spec.protocol {
        Some(p) => p,
        None => {
            return;
        },
    };
    add_protocol_error(
        out,
        is_unknown_state(p, &p.initial),
        "Protocol initial state '",
        p.initial.as_str(),
        "' is not in states list",
    );
    check_terminal(p, out);
    check_transitions(p, extracted, out);
    check_pairs(p, extracted, out);
    check_unreachable(p, out);
    check_dead_ends(p, out);
    assert(out.deep_view() =~= start + protocol_findings(spec.deep_view(), extracted.deep_view()));
}

/// A protocol without a list of states is not checked for unknown, unreachable and dead-end
/// states: only its functions are.
pub proof fn unlisted_states_are_not_checked(spec: ModuleSpecModel, m: ExtractedModuleModel)
    requires
        spec.protocol is Some,
        spec.protocol->0.states.len() == 0,
        forall|i: int|
            0 <= i < spec.protocol->0.transitions.len() ==> has_function(
                m,
                (#[trigger] spec.protocol->0.transitions[i]).call,
            ),
        spec.protocol->0.balanced_pairs.len() == 0,
    ensures
        protocol_findings(spec, m) == Seq::<ConstraintResultModel>::empty(),
{
    let p = spec.protocol->0;
    lemma_nothing_collected(p.terminal, terminal_findings(p));
    lemma_nothing_collected(p.transitions, transition_findings(p, m));
    lemma_nothing_collected(p.balanced_pairs, pair_findings(m));
    lemma_nothing_collected(p.states, unreachable_findings(p));
    lemma_nothing_collected(p.states, dead_end_findings(p));
    assert(protocol_findings(spec, m) =~= Seq::empty());
}

/// Nothing is collected where nothing is found of any item.
pub proof fn lemma_nothing_collected<T>(items: Seq<T>, f: spec_fn(T) -> Seq<ConstraintResultModel>)
    requires
        forall|i: int|
            0 <= i < items.len() ==> f(#[trigger] items[i]) == Seq::<
                ConstraintResultModel,
            >::empty(),
    ensures
        collected(items, f) == Seq::<ConstraintResultModel>::empty(),
    decreases items.len(),
{
    if items.len() > 0 {
        assert forall|i: int| 0 <= i < items.drop_last().len() implies f(
            #[trigger] items.drop_last()[i],
        ) == Seq::<ConstraintResultModel>::empty() by {
            assert(items.drop_last()[i] == items[i]);
        }
        lemma_nothing_collected(items.drop_last(), f);
        assert(f(items[items.len() - 1]) == Seq::<ConstraintResultModel>::empty());
        assert(collected(items, f) =~= Seq::empty());
    }
}

} // verus!

//! What a solver is asked, and what its replies come to.
use vstd::prelude::*;

use crate::smt::{
    all_lines, bounded_names, bounds_query, declared_names, distinct_claims, exclusions,
    exclusions_of, owner_names, ownership_clauses, ownership_conclusion, ownership_query,
    reply_result, smt_name, sorted_names, with_premises, BoundsModel, Clause, SmtQueryModel,
    SmtResultModel, SolverReply,
};
use crate::text;

verus! {

// ─── Replies ──────────────────────────────────────────────────────────────────

/// A solver's word decides, with or without blanks round it; anything else it writes is an
/// error.
pub proof fn words_of_the_solver_decide(reply: SolverReply)
    ensures
        ({
            let word = match reply {
                SolverReply::Output { stdout, .. } => Some(text::trim(stdout@)),
                _ => None,
            };
            &&& reply_result(reply) == SmtResultModel::Sat <==> word == Some("sat"@)
            &&& reply_result(reply) == SmtResultModel::Unsat <==> word == Some("unsat"@)
            &&& reply_result(reply) == SmtResultModel::Unknown <==> (word == Some("unknown"@)
                || word == Some("timeout"@))
        }),
{
    reveal_strlit("sat");
    reveal_strlit("unsat");
    reveal_strlit("unknown");
    reveal_strlit("timeout");
    assert("sat"@.len() == 3 && "unsat"@.len() == 5 && "unknown"@.len() == 7);
    assert("timeout"@.len() == 7);
}

/// Claims on states are consistent exactly where the solver finds that they can all hold.
pub proof fn claims_stand_where_the_solver_says_so(reply: SolverReply)
    ensures
        ownership_conclusion(reply) is Ok <==> (reply matches SolverReply::Output { stdout, .. }
            && text::trim(stdout@) == "sat"@),
{
    words_of_the_solver_decide(reply);
}

// ─── Names ────────────────────────────────────────────────────────────────────

/// A name keeps its letters, digits and underscores, each in its place; every other character
/// becomes an underscore.
pub proof fn names_keep_their_words(name: Seq<char>, i: int)
    requires
        0 <= i < name.len(),
    ensures
        smt_name(name).len() == name.len(),
        text::is_word(name[i]) ==> smt_name(name)[i] == name[i],
        !text::is_word(name[i]) ==> smt_name(name)[i] == '_',
{
}

// ─── Texts ────────────────────────────────────────────────────────────────────

proof fn lemma_lines(texts: Seq<Seq<char>>, k: int, i: int)
    requires
        0 <= i < k <= texts.len(),
    ensures
        text::contains(all_lines(texts, k), texts[i] + "\n"@),
    decreases k,
{
    let line = texts[i] + "\n"@;
    let before = all_lines(texts, k - 1);
    let now = all_lines(texts, k);
    if i == k - 1 {
        let p = before.len() as int;
        assert(now.subrange(p, p + line.len()) =~= line);
        assert(text::occurs_at(now, line, p));
    } else {
        lemma_lines(texts, k - 1, i);
        let p = choose|p: int| #[trigger] text::occurs_at(before, line, p);
        assert(now.subrange(p, p + line.len()) =~= before.subrange(p, p + line.len()));
        assert(text::occurs_at(now, line, p));
    }
}

proof fn lemma_inner(a: Seq<char>, b: Seq<char>, c: Seq<char>, x: Seq<char>)
    requires
        text::contains(b, x),
    ensures
        text::contains(a + b + c, x),
{
    let all = a + b + c;
    let p = choose|p: int| #[trigger] text::occurs_at(b, x, p);
    let q = a.len() + p;
    assert(all.subrange(q, q + x.len()) =~= b.subrange(p, p + x.len()));
    assert(text::occurs_at(all, x, q));
}

/// A query is written with a line for each declaration and each assertion, behind the logic
/// that it uses and before the question whether all of it can hold.
pub proof fn queries_are_written_in_full(query: SmtQueryModel, i: int)
    ensures
        text::starts_with(query.smtlib2(), "(set-logic ALL)\n"@),
        text::ends_with(query.smtlib2(), "(check-sat)\n"@),
        0 <= i < query.declarations.len() ==> text::contains(
            query.smtlib2(),
            query.declarations[i] + "\n"@,
        ),
        0 <= i < query.assertions.len() ==> text::contains(
            query.smtlib2(),
            query.assertions[i] + "\n"@,
        ),
{
    let a = "(set-logic ALL)\n"@;
    let d = all_lines(query.declarations, query.declarations.len() as int);
    let s = all_lines(query.assertions, query.assertions.len() as int);
    let z = "(check-sat)\n"@;
    let all = query.smtlib2();
    assert(all.take(a.len() as int) =~= a);
    assert(all.subrange(0, a.len() as int) =~= a);
    assert(all.subrange(all.len() - z.len(), all.len() as int) =~= z);
    assert(all.skip(all.len() - z.len()) =~= z);
    if 0 <= i < query.declarations.len() {
        lemma_lines(query.declarations, query.declarations.len() as int, i);
        lemma_inner(a, d, s + z, query.declarations[i] + "\n"@);
        assert(all =~= a + d + (s + z));
    }
    if 0 <= i < query.assertions.len() {
        lemma_lines(query.assertions, query.assertions.len() as int, i);
        lemma_inner(a + d, s, z, query.assertions[i] + "\n"@);
        assert(all =~= (a + d) + s + z);
    }
}

// ─── Bounds ───────────────────────────────────────────────────────────────────

/// What a lower bound asserts.
pub open spec fn at_least(b: BoundsModel, n: i64) -> Seq<char> {
    "(assert (>= "@ + smt_name(b.name) + " "@ + text::integer(n as int) + "))"@
}

/// What an upper bound asserts.
pub open spec fn at_most(b: BoundsModel, n: i64) -> Seq<char> {
    "(assert (<= "@ + smt_name(b.name) + " "@ + text::integer(n as int) + "))"@
}

/// What declares a variable.
pub open spec fn integer_named(b: BoundsModel) -> Seq<char> {
    "(declare-const "@ + smt_name(b.name) + " Int)"@
}

proof fn lemma_bound_texts(b: BoundsModel, n: i64)
    ensures
        crate::smt::assertion_text(
            crate::smt::binary_text(">="@, smt_name(b.name), text::integer(n as int)),
        ) == at_least(b, n),
        crate::smt::assertion_text(
            crate::smt::binary_text("<="@, smt_name(b.name), text::integer(n as int)),
        ) == at_most(b, n),
        crate::smt::declaration_text(smt_name(b.name), "Int"@) == integer_named(b),
{
    reveal_strlit("(assert ");
    reveal_strlit("(assert (>= ");
    reveal_strlit("(assert (<= ");
    reveal_strlit("(");
    reveal_strlit(")");
    reveal_strlit("))");
    reveal_strlit(" ");
    reveal_strlit(">=");
    reveal_strlit("<=");
    reveal_strlit(" Int)");
    reveal_strlit("Int");
    assert(crate::smt::assertion_text(
        crate::smt::binary_text(">="@, smt_name(b.name), text::integer(n as int)),
    ) =~= at_least(b, n));
    assert(crate::smt::assertion_text(
        crate::smt::binary_text("<="@, smt_name(b.name), text::integer(n as int)),
    ) =~= at_most(b, n));
    assert(crate::smt::declaration_text(smt_name(b.name), "Int"@) =~= integer_named(b));
}

proof fn lemma_bounds_step(constraints: Seq<BoundsModel>, k: int)
    requires
        0 < k <= constraints.len(),
    ensures
        ({
            let before = bounds_query(constraints, k - 1);
            let now = bounds_query(constraints, k);
            let b = constraints[k - 1];
            let lows = match b.lower {
                Some(n) => seq![at_least(b, n)],
                None => Seq::<Seq<char>>::empty(),
            };
            let highs = match b.upper {
                Some(n) => seq![at_most(b, n)],
                None => Seq::<Seq<char>>::empty(),
            };
            &&& now.assertions == before.assertions + lows + highs
            &&& now.declarations == (if bounded_names(constraints, k - 1).contains(smt_name(b.name)) {
                before.declarations
            } else {
                before.declarations.push(integer_named(b))
            })
        }),
{
    let before = bounds_query(constraints, k - 1);
    let now = bounds_query(constraints, k);
    let b = constraints[k - 1];
    let lows = match b.lower {
        Some(n) => seq![at_least(b, n)],
        None => Seq::<Seq<char>>::empty(),
    };
    let highs = match b.upper {
        Some(n) => seq![at_most(b, n)],
        None => Seq::<Seq<char>>::empty(),
    };
    lemma_bound_texts(b, 0);
    if b.lower is Some {
        lemma_bound_texts(b, b.lower->0);
    }
    if b.upper is Some {
        lemma_bound_texts(b, b.upper->0);
    }
    assert(now.assertions =~= before.assertions + lows + highs);
}

/// Every variable is declared as an integer, and every bound is asserted of its variable.
pub proof fn bounds_are_asserted(constraints: Seq<BoundsModel>, i: int, k: int)
    requires
        0 <= i < k <= constraints.len(),
    ensures
        ({
            let b = constraints[i];
            let q = bounds_query(constraints, k);
            &&& q.declarations.contains(integer_named(b))
            &&& b.lower matches Some(n) ==> q.assertions.contains(at_least(b, n))
            &&& b.upper matches Some(n) ==> q.assertions.contains(at_most(b, n))
        }),
    decreases k,
{
    let b = constraints[i];
    let before = bounds_query(constraints, k - 1);
    let now = bounds_query(constraints, k);
    lemma_bounds_step(constraints, k);
    if i < k - 1 {
        bounds_are_asserted(constraints, i, k - 1);
        lemma_still_there(before, now, constraints, k);
        let d = choose|d: int|
            0 <= d < before.declarations.len() && before.declarations[d] == integer_named(b);
        assert(now.declarations[d] == integer_named(b));
        if b.lower is Some {
            let x = at_least(b, b.lower->0);
            let p = choose|p: int| 0 <= p < before.assertions.len() && before.assertions[p] == x;
            assert(now.assertions[p] == x);
        }
        if b.upper is Some {
            let x = at_most(b, b.upper->0);
            let p = choose|p: int| 0 <= p < before.assertions.len() && before.assertions[p] == x;
            assert(now.assertions[p] == x);
        }
    } else {
        let n = before.assertions.len() as int;
        if b.lower is Some {
            assert(now.assertions[n] == at_least(b, b.lower->0));
        }
        if b.upper is Some {
            assert(now.assertions.last() == at_most(b, b.upper->0));
            assert(now.assertions[now.assertions.len() - 1] == at_most(b, b.upper->0));
        }
        let names = bounded_names(constraints, k - 1);
        if names.contains(smt_name(b.name)) {
            let j = choose|j: int| 0 <= j < names.len() && names[j] == smt_name(b.name);
            bounds_are_asserted(constraints, j, k - 1);
            assert(constraints.take(k - 1)[j] == constraints[j]);
            assert(integer_named(constraints[j]) == integer_named(b));
        } else {
            assert(now.declarations[before.declarations.len() as int] == integer_named(b));
        }
    }
}

proof fn lemma_still_there(
    before: SmtQueryModel,
    now: SmtQueryModel,
    constraints: Seq<BoundsModel>,
    k: int,
)
    requires
        0 < k <= constraints.len(),
        before == bounds_query(constraints, k - 1),
        now == bounds_query(constraints, k),
    ensures
        before.assertions.len() <= now.assertions.len(),
        before.declarations.len() <= now.declarations.len(),
        forall|p: int|
            0 <= p < before.assertions.len() ==> #[trigger] now.assertions[p]
                == before.assertions[p],
        forall|p: int|
            0 <= p < before.declarations.len() ==> #[trigger] now.declarations[p]
                == before.declarations[p],
{
    lemma_bounds_step(constraints, k);
}

/// Nothing else is asserted than the bounds.
pub proof fn nothing_but_bounds_is_asserted(constraints: Seq<BoundsModel>, k: int, p: int) -> (i: int)
    requires
        0 <= k <= constraints.len(),
        0 <= p < bounds_query(constraints, k).assertions.len(),
    ensures
        0 <= i < k,
        ({
            let b = constraints[i];
            let x = bounds_query(constraints, k).assertions[p];
            ||| (b.lower matches Some(n) && x == at_least(b, n))
            ||| (b.upper matches Some(n) && x == at_most(b, n))
        }),
    decreases k,
{
    lemma_bounds_step(constraints, k);
    if p < bounds_query(constraints, k - 1).assertions.len() {
        nothing_but_bounds_is_asserted(constraints, k - 1, p)
    } else {
        k - 1
    }
}

// ─── Ownership ────────────────────────────────────────────────────────────────

/// The constant that stands for a claim: that a module owns a state.
pub open spec fn ownership(claim: (Seq<char>, Seq<char>)) -> Seq<char> {
    "owns_"@ + smt_name(claim.0) + "_"@ + smt_name(claim.1)
}

proof fn lemma_claim_kept(claims: Seq<(Seq<char>, Seq<char>)>, k: int, i: int)
    requires
        0 <= i < k <= claims.len(),
    ensures
        distinct_claims(claims, k).contains(claims[i]),
    decreases k,
{
    let before = distinct_claims(claims, k - 1);
    let now = distinct_claims(claims, k);
    if i < k - 1 {
        lemma_claim_kept(claims, k - 1, i);
        let a = choose|a: int| 0 <= a < before.len() && before[a] == claims[i];
        assert(now[a] == claims[i]);
    } else if !before.contains(claims[k - 1]) {
        assert(now[before.len() as int] == claims[k - 1]);
    }
}

/// Every claim is asserted, whatever the others are.
pub proof fn claims_are_asserted(claims: Seq<(Seq<char>, Seq<char>)>, i: int)
    requires
        0 <= i < claims.len(),
    ensures
        ownership_query(claims).assertions.contains("(assert "@ + ownership(claims[i]) + ")"@),
{
    let n = claims.len() as int;
    lemma_claim_kept(claims, n, i);
    let distinct = distinct_claims(claims, n);
    let a = choose|a: int| 0 <= a < distinct.len() && distinct[a] == claims[i];
    let clauses = ownership_clauses(claims);
    assert(clauses[a] == Clause::Owned(ownership(claims[i])));
    assert(ownership_query(claims).assertions[a] == "(assert "@ + ownership(claims[i]) + ")"@);
}

proof fn lemma_row(claims: Seq<(Seq<char>, Seq<char>)>, i: int, k: int, j: int)
    requires
        0 <= i < j < k <= claims.len(),
        claims[i].1 == claims[j].1,
    ensures
        exclusions_of(claims, i, k).contains(
            Clause::NotBoth(ownership(claims[i]), ownership(claims[j])),
        ),
    decreases k,
{
    let clause = Clause::NotBoth(ownership(claims[i]), ownership(claims[j]));
    let before = exclusions_of(claims, i, k - 1);
    let now = exclusions_of(claims, i, k);
    if j == k - 1 {
        assert(now[before.len() as int] == clause);
    } else {
        lemma_row(claims, i, k - 1, j);
        let at = choose|at: int| 0 <= at < before.len() && before[at] == clause;
        assert(now[at] == clause);
    }
}

proof fn lemma_rows(claims: Seq<(Seq<char>, Seq<char>)>, k: int, i: int, j: int)
    requires
        0 <= i < k <= claims.len(),
        i < j < claims.len(),
        claims[i].1 == claims[j].1,
    ensures
        exclusions(claims, k).contains(
            Clause::NotBoth(ownership(claims[i]), ownership(claims[j])),
        ),
    decreases k,
{
    let clause = Clause::NotBoth(ownership(claims[i]), ownership(claims[j]));
    let before = exclusions(claims, k - 1);
    let row = exclusions_of(claims, k - 1, claims.len() as int);
    let now = exclusions(claims, k);
    if i == k - 1 {
        lemma_row(claims, i, claims.len() as int, j);
        let at = choose|at: int| 0 <= at < row.len() && row[at] == clause;
        assert(now[before.len() + at] == clause);
    } else {
        lemma_rows(claims, k - 1, i, j);
        let at = choose|at: int| 0 <= at < before.len() && before[at] == clause;
        assert(now[at] == clause);
    }
}

/// Of two modules that claim one state, not both can own it: that is asserted, in one order or
/// the other.
pub proof fn rival_claims_exclude_each_other(
    claims: Seq<(Seq<char>, Seq<char>)>,
    i: int,
    j: int,
)
    requires
        0 <= i < claims.len(),
        0 <= j < claims.len(),
        claims[i].1 == claims[j].1,
        claims[i].0 != claims[j].0,
    ensures
        ({
            let a = ownership(claims[i]);
            let b = ownership(claims[j]);
            let all = ownership_query(claims).assertions;
            ||| all.contains("(assert (not (and "@ + a + " "@ + b + ")))"@)
            ||| all.contains("(assert (not (and "@ + b + " "@ + a + ")))"@)
        }),
{
    let n = claims.len() as int;
    let distinct = distinct_claims(claims, n);
    lemma_claim_kept(claims, n, i);
    lemma_claim_kept(claims, n, j);
    let x = choose|x: int| 0 <= x < distinct.len() && distinct[x] == claims[i];
    let y = choose|y: int| 0 <= y < distinct.len() && distinct[y] == claims[j];
    assert(x != y);
    let (low, high) = if x < y {
        (x, y)
    } else {
        (y, x)
    };
    lemma_rows(distinct, distinct.len() as int, low, high);
    let a = ownership(distinct[low]);
    let b = ownership(distinct[high]);
    let clause = Clause::NotBoth(a, b);
    let excluded = exclusions(distinct, distinct.len() as int);
    let at = choose|at: int| 0 <= at < excluded.len() && excluded[at] == clause;
    let clauses = ownership_clauses(claims);
    assert(clauses[distinct.len() + at] == clause);
    let line = ownership_query(claims).assertions[distinct.len() + at];
    reveal_strlit("(assert ");
    reveal_strlit("(not (and ");
    reveal_strlit("))");
    reveal_strlit(")");
    reveal_strlit("(assert (not (and ");
    reveal_strlit(")))");
    assert(line =~= "(assert (not (and "@ + a + " "@ + b + ")))"@);
}

proof fn lemma_owner_named(claims: Seq<(Seq<char>, Seq<char>)>, k: int, i: int)
    requires
        0 <= i < k <= claims.len(),
    ensures
        owner_names(claims, k).contains(ownership(claims[i])),
    decreases k,
{
    let before = owner_names(claims, k - 1);
    let now = owner_names(claims, k);
    if i < k - 1 {
        lemma_owner_named(claims, k - 1, i);
        let a = choose|a: int| 0 <= a < before.len() && before[a] == ownership(claims[i]);
        assert(now[a] == ownership(claims[i]));
    } else if !before.contains(ownership(claims[k - 1])) {
        assert(now[before.len() as int] == ownership(claims[k - 1]));
    }
}

/// Every claim has a constant, which is declared.
pub proof fn claims_are_declared(claims: Seq<(Seq<char>, Seq<char>)>, i: int)
    requires
        0 <= i < claims.len(),
    ensures
        ownership_query(claims).declarations.contains(
            "(declare-const "@ + ownership(claims[i]) + " "@ + "Bool"@ + ")"@,
        ),
{
    let n = claims.len() as int;
    let distinct = distinct_claims(claims, n);
    lemma_claim_kept(claims, n, i);
    let x = choose|x: int| 0 <= x < distinct.len() && distinct[x] == claims[i];
    lemma_owner_named(distinct, distinct.len() as int, x);
    let names = owner_names(distinct, distinct.len() as int);
    let a = choose|a: int| 0 <= a < names.len() && names[a] == ownership(claims[i]);
    assert(ownership_query(claims).declarations[a] == "(declare-const "@ + ownership(claims[i])
        + " "@ + "Bool"@ + ")"@);
}

// ─── Implications ─────────────────────────────────────────────────────────────

/// All premises are asserted, in their order, behind what was asserted before.
pub proof fn premises_are_asserted(query: SmtQueryModel, premises: Seq<Seq<char>>, k: int, i: int)
    requires
        0 <= k <= premises.len(),
    ensures
        ({
            let q = with_premises(query, premises, k);
            &&& q.declarations == query.declarations
            &&& q.assertions.len() == query.assertions.len() + k
            &&& 0 <= i < k ==> q.assertions[query.assertions.len() + i] == "(assert "@ + premises[i]
                + ")"@
            &&& 0 <= i < query.assertions.len() ==> q.assertions[i] == query.assertions[i]
        }),
    decreases k,
{
    if k > 0 {
        premises_are_asserted(query, premises, k - 1, i);
    }
}

/// A name is declared where it stands first, with the sort that it has there, and not again.
pub proof fn names_are_declared_once(declarations: Seq<(Seq<char>, Seq<char>)>, k: int, i: int)
    requires
        0 <= i < k <= declarations.len(),
        forall|j: int| 0 <= j < i ==> smt_name(#[trigger] declarations[j].0) != smt_name(
            declarations[i].0,
        ),
    ensures
        sorted_names(declarations, k).assertions.len() == 0,
        sorted_names(declarations, k).declarations.contains(
            "(declare-const "@ + smt_name(declarations[i].0) + " "@ + declarations[i].1 + ")"@,
        ),
    decreases k,
{
    let line = "(declare-const "@ + smt_name(declarations[i].0) + " "@ + declarations[i].1 + ")"@;
    let before = sorted_names(declarations, k - 1);
    let now = sorted_names(declarations, k);
    lemma_nothing_asserted(declarations, k);
    if i < k - 1 {
        names_are_declared_once(declarations, k - 1, i);
        let d = choose|d: int| 0 <= d < before.declarations.len() && before.declarations[d] == line;
        assert(now.declarations[d] == line);
    } else {
        let names = declared_names(declarations, k - 1);
        if names.contains(smt_name(declarations[i].0)) {
            let j = choose|j: int| 0 <= j < names.len() && names[j] == smt_name(declarations[i].0);
            assert(declarations.take(k - 1)[j] == declarations[j]);
            assert(smt_name(declarations[j].0) == smt_name(declarations[i].0));
        }
        assert(now.declarations[before.declarations.len() as int] == line);
    }
}

proof fn lemma_nothing_asserted(declarations: Seq<(Seq<char>, Seq<char>)>, k: int)
    ensures
        sorted_names(declarations, k).assertions.len() == 0,
    decreases k,
{
    if 0 < k <= declarations.len() {
        lemma_nothing_asserted(declarations, k - 1);
    }
}

/// A name that was declared before is not declared again.
pub proof fn repeated_names_are_not_declared(
    declarations: Seq<(Seq<char>, Seq<char>)>,
    k: int,
    i: int,
)
    requires
        0 <= i < k - 1,
        k <= declarations.len(),
        smt_name(declarations[i].0) == smt_name(declarations[k - 1].0),
    ensures
        sorted_names(declarations, k) == sorted_names(declarations, k - 1),
{
    let names = declared_names(declarations, k - 1);
    assert(declarations.take(k - 1)[i] == declarations[i]);
    assert(names[i] == smt_name(declarations[k - 1].0));
}

} // verus!

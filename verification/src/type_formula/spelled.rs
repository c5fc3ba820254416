//! How formulas are spelled, and that they are read as they are spelled.
use vstd::prelude::*;

use super::ast::{FormulaModel, ParamRefModel, ParseErrorModel, PredicateModel, TroubleModel, TypeExprModel};
use super::parser::{
    and_rest, conjunction_at, formula_at, or_rest, predicate_at, token, type_expr_at,
    type_exprs_from, type_function_rest, unary_at,
};
use super::tokens::{token_at, tokens_from, TokenModel};
use super::type_reader::{type_of, type_reading};
use super::written::{is_readable, written_types_are_read_back};
use crate::text;
use crate::types::{type_text, TypeReprModel};

verus! {

// ─── Type expressions ─────────────────────────────────────────────────────────

pub open spec fn word(name: Seq<char>) -> TokenModel {
    TokenModel::Ident(name)
}

/// A name with its parenthesis.
pub open spec fn call(name: Seq<char>) -> Seq<TokenModel> {
    seq![TokenModel::Ident(name), TokenModel::LParen]
}

pub open spec fn closing() -> Seq<TokenModel> {
    seq![TokenModel::RParen]
}

pub open spec fn comma() -> Seq<TokenModel> {
    seq![TokenModel::Comma]
}

/// The words that stand for something else than a type of that name.
pub open spec fn is_reserved(name: Seq<char>) -> bool {
    ||| name == "Self"@
    ||| name == "return"@
    ||| name == "field"@
    ||| name == "param"@
    ||| name == "con"@
    ||| name == "arg"@
    ||| name == "apply"@
    ||| name == "function"@
    ||| name == "domain"@
    ||| name == "codomain"@
    ||| name == "sum"@
    ||| name == "product"@
}

/// How a type expression is spelled.
pub open spec fn expr_tokens(e: TypeExprModel) -> Seq<TokenModel>
    decreases e, 0nat,
{
    match e {
        TypeExprModel::Self_ => seq![word("Self"@)],
        TypeExprModel::Return => seq![word("return"@)],
        TypeExprModel::Literal(t) => match t {
            TypeReprModel::Named(name) => seq![word(name)],
            _ => seq![TokenModel::TypeLit(type_text(t))],
        },
        TypeExprModel::Field(name) => call("field"@) + seq![word(name)] + closing(),
        TypeExprModel::Param(ParamRefModel::Index(n)) => call("param"@) + seq![
            TokenModel::Integer(n),
        ] + closing(),
        TypeExprModel::Param(ParamRefModel::Name(s)) => call("param"@) + seq![
            TokenModel::StringLit(s),
        ] + closing(),
        TypeExprModel::Con(inner) => call("con"@) + expr_tokens(*inner) + closing(),
        TypeExprModel::Arg(inner, n) => call("arg"@) + expr_tokens(*inner) + seq![
            TokenModel::Comma,
            TokenModel::Integer(n),
        ] + closing(),
        TypeExprModel::Apply(f, args) => call("apply"@) + expr_tokens(*f) + list_tokens(args, 0)
            + closing(),
        TypeExprModel::Function(types) => call("function"@) + first_tokens(types) + list_tokens(
            types,
            1,
        ) + closing(),
        TypeExprModel::Domain(f, None) => call("domain"@) + expr_tokens(*f) + closing(),
        TypeExprModel::Domain(f, Some(n)) => call("domain"@) + expr_tokens(*f) + seq![
            TokenModel::Comma,
            TokenModel::Integer(n),
        ] + closing(),
        TypeExprModel::Codomain(f) => call("codomain"@) + expr_tokens(*f) + closing(),
        TypeExprModel::Sum(types) => call("sum"@) + first_tokens(types) + list_tokens(types, 1)
            + closing(),
        TypeExprModel::Product(types) => call("product"@) + first_tokens(types) + list_tokens(
            types,
            1,
        ) + closing(),
    }
}

/// The first of some type expressions.
pub open spec fn first_tokens(es: Seq<TypeExprModel>) -> Seq<TokenModel>
    decreases es, 0nat,
{
    if es.len() > 0 {
        expr_tokens(es[0])
    } else {
        Seq::empty()
    }
}

/// The type expressions from `k` on, each behind a comma.
pub open spec fn list_tokens(es: Seq<TypeExprModel>, k: int) -> Seq<TokenModel>
    decreases es, es.len() - k,
{
    if 0 <= k < es.len() {
        comma() + expr_tokens(es[k]) + list_tokens(es, k + 1)
    } else {
        Seq::empty()
    }
}

/// Whether a type expression has a spelling: its types can be written, no type has a reserved
/// name, and functions, sums and products have members.
pub open spec fn is_spelled_expr(e: TypeExprModel) -> bool
    decreases e,
{
    match e {
        TypeExprModel::Literal(t) => match t {
            TypeReprModel::Named(name) => !is_reserved(name),
            _ => is_readable(t),
        },
        TypeExprModel::Con(inner) => is_spelled_expr(*inner),
        TypeExprModel::Arg(inner, _) => is_spelled_expr(*inner),
        TypeExprModel::Apply(f, args) => is_spelled_expr(*f) && are_spelled_exprs(args),
        TypeExprModel::Function(types) => types.len() > 0 && are_spelled_exprs(types),
        TypeExprModel::Domain(f, _) => is_spelled_expr(*f),
        TypeExprModel::Codomain(f) => is_spelled_expr(*f),
        TypeExprModel::Sum(types) => types.len() > 0 && are_spelled_exprs(types),
        TypeExprModel::Product(types) => types.len() > 0 && are_spelled_exprs(types),
        _ => true,
    }
}

pub open spec fn are_spelled_exprs(es: Seq<TypeExprModel>) -> bool
    decreases es,
{
    forall|i: int| 0 <= i < es.len() ==> is_spelled_expr(#[trigger] es[i])
}

// ─── Where tokens stand ───────────────────────────────────────────────────────

/// Whether some tokens stand at a position.
pub open spec fn stands(ts: Seq<TokenModel>, p: int, x: Seq<TokenModel>) -> bool {
    0 <= p && p + x.len() <= ts.len() && forall|i: int|
        0 <= i < x.len() ==> #[trigger] ts[p + i] == x[i]
}

proof fn lemma_split(ts: Seq<TokenModel>, p: int, a: Seq<TokenModel>, b: Seq<TokenModel>)
    requires
        stands(ts, p, a + b),
    ensures
        stands(ts, p, a),
        stands(ts, p + a.len(), b),
{
    let all = a + b;
    assert forall|i: int| 0 <= i < a.len() implies #[trigger] ts[p + i] == a[i] by {
        assert(ts[p + i] == all[i]);
    }
    let q = p + a.len();
    assert forall|i: int| 0 <= i < b.len() implies #[trigger] ts[q + i] == b[i] by {
        assert(ts[p + (a.len() + i)] == all[a.len() + i]);
    }
}

proof fn lemma_first(ts: Seq<TokenModel>, p: int, t: TokenModel)
    requires
        stands(ts, p, seq![t]),
    ensures
        token(ts, p) == Some(t),
        p + 1 <= ts.len(),
{
    assert(ts[p + 0] == seq![t][0]);
}

proof fn lemma_call(ts: Seq<TokenModel>, p: int, name: Seq<char>)
    requires
        stands(ts, p, call(name)),
    ensures
        token(ts, p) == Some(word(name)),
        token(ts, p + 1) == Some(TokenModel::LParen),
        0 <= p,
        p + 2 <= ts.len(),
{
    assert(ts[p + 0] == call(name)[0]);
    assert(ts[p + 1] == call(name)[1]);
}

/// The words of type expressions differ.
proof fn lemma_words()
    ensures
        "Self"@.len() == 4,
        "return"@.len() == 6,
        "field"@.len() == 5,
        "param"@.len() == 5,
        "con"@.len() == 3,
        "arg"@.len() == 3,
        "apply"@.len() == 5,
        "function"@.len() == 8,
        "domain"@.len() == 6,
        "codomain"@.len() == 8,
        "sum"@.len() == 3,
        "product"@.len() == 7,
        "field"@[0] == 'f',
        "param"@[0] == 'p',
        "apply"@[0] == 'a',
        "con"@[0] == 'c',
        "arg"@[0] == 'a',
        "sum"@[0] == 's',
        "return"@[0] == 'r',
        "domain"@[0] == 'd',
        "function"@[0] == 'f',
        "codomain"@[0] == 'c',
{
    reveal_strlit("Self");
    reveal_strlit("return");
    reveal_strlit("field");
    reveal_strlit("param");
    reveal_strlit("con");
    reveal_strlit("arg");
    reveal_strlit("apply");
    reveal_strlit("function");
    reveal_strlit("domain");
    reveal_strlit("codomain");
    reveal_strlit("sum");
    reveal_strlit("product");
}

// ─── Reading type expressions ─────────────────────────────────────────────────

#[verifier::opaque]
pub open spec fn reads_expr(ts: Seq<TokenModel>, p: int, e: TypeExprModel, n: int) -> bool {
    type_expr_at(ts, p) == Ok::<(TypeExprModel, int), TroubleModel>((e, n))
}

#[verifier::opaque]
pub open spec fn reads_exprs(
    ts: Seq<TokenModel>,
    p: int,
    done: Seq<TypeExprModel>,
    all: Seq<TypeExprModel>,
    n: int,
) -> bool {
    type_exprs_from(ts, p, done) == Ok::<(Seq<TypeExprModel>, int), TroubleModel>((all, n))
}

#[verifier::opaque]
pub open spec fn reads_rest(
    ts: Seq<TokenModel>,
    name: Seq<char>,
    first: TypeExprModel,
    p: int,
    e: TypeExprModel,
    n: int,
) -> bool {
    type_function_rest(ts, name, first, p) == Ok::<(TypeExprModel, int), TroubleModel>((e, n))
}

/// A type function, read from its first argument and the rest.
proof fn lemma_function_step(
    ts: Seq<TokenModel>,
    p: int,
    name: Seq<char>,
    first: TypeExprModel,
    n: int,
    e: TypeExprModel,
    m: int,
)
    requires
        token(ts, p) == Some(word(name)),
        token(ts, p + 1) == Some(TokenModel::LParen),
        super::parser::is_type_function(name),
        name != "field"@,
        name != "param"@,
        reads_expr(ts, p + 2, first, n),
        p < n <= ts.len(),
        reads_rest(ts, name, first, n, e, m),
        token(ts, m) == Some(TokenModel::RParen),
    ensures
        reads_expr(ts, p, e, m + 1),
{
    lemma_words();
    reveal(reads_expr);
    reveal(reads_rest);
}

proof fn lemma_exprs_step(
    ts: Seq<TokenModel>,
    p: int,
    done: Seq<TypeExprModel>,
    e: TypeExprModel,
    q: int,
    all: Seq<TypeExprModel>,
    n: int,
)
    requires
        token(ts, p) == Some(TokenModel::Comma),
        reads_expr(ts, p + 1, e, q),
        p < q <= ts.len(),
        reads_exprs(ts, q, done.push(e), all, n),
    ensures
        reads_exprs(ts, p, done, all, n),
{
    reveal(reads_expr);
    reveal(reads_exprs);
}

proof fn lemma_list(
    es: Seq<TypeExprModel>,
    k: int,
    done: Seq<TypeExprModel>,
    ts: Seq<TokenModel>,
    p: int,
)
    requires
        0 <= k <= es.len(),
        are_spelled_exprs(es),
        stands(ts, p, list_tokens(es, k) + closing()),
    ensures
        reads_exprs(ts, p, done, done + es.skip(k), p + list_tokens(es, k).len()),
        token(ts, p + list_tokens(es, k).len()) == Some(TokenModel::RParen),
        0 <= p,
        p + list_tokens(es, k).len() + 1 <= ts.len(),
    decreases es, es.len() - k,
{
    let x = list_tokens(es, k);
    lemma_split(ts, p, x, closing());
    lemma_first(ts, p + x.len(), TokenModel::RParen);
    if k < es.len() {
        let e = expr_tokens(es[k]);
        let rest = list_tokens(es, k + 1);
        assert(x + closing() =~= comma() + (e + (rest + closing())));
        lemma_split(ts, p, comma(), e + (rest + closing()));
        lemma_split(ts, p + 1, e, rest + closing());
        lemma_first(ts, p, TokenModel::Comma);
        assert(is_spelled_expr(es[k]));
        lemma_expr(es[k], ts, p + 1);
        let q = p + 1 + e.len();
        lemma_list(es, k + 1, done.push(es[k]), ts, q);
        assert(done.push(es[k]) + es.skip(k + 1) =~= done + es.skip(k));
        lemma_exprs_step(ts, p, done, es[k], q, done + es.skip(k), q + rest.len());
    } else {
        reveal(reads_exprs);
        assert(done + es.skip(k) =~= done);
    }
}

/// What follows the first argument, where nothing does.
proof fn lemma_rest_plain(ts: Seq<TokenModel>, first: TypeExprModel, n: int)
    ensures
        reads_rest(ts, "con"@, first, n, TypeExprModel::Con(Box::new(first)), n),
        reads_rest(ts, "codomain"@, first, n, TypeExprModel::Codomain(Box::new(first)), n),
        token(ts, n) != Some(TokenModel::Comma) ==> reads_rest(
            ts,
            "domain"@,
            first,
            n,
            TypeExprModel::Domain(Box::new(first), None),
            n,
        ),
{
    lemma_words();
    reveal(reads_rest);
}

proof fn lemma_rest_number(ts: Seq<TokenModel>, first: TypeExprModel, n: int, i: usize)
    requires
        token(ts, n) == Some(TokenModel::Comma),
        token(ts, n + 1) == Some(TokenModel::Integer(i)),
    ensures
        reads_rest(ts, "arg"@, first, n, TypeExprModel::Arg(Box::new(first), i), n + 2),
        reads_rest(ts, "domain"@, first, n, TypeExprModel::Domain(Box::new(first), Some(i)), n + 2),
{
    lemma_words();
    reveal(reads_rest);
}

proof fn lemma_rest_list(
    ts: Seq<TokenModel>,
    first: TypeExprModel,
    n: int,
    es: Seq<TypeExprModel>,
    m: int,
)
    ensures
        reads_exprs(ts, n, Seq::empty(), es, m) ==> reads_rest(
            ts,
            "apply"@,
            first,
            n,
            TypeExprModel::Apply(Box::new(first), es),
            m,
        ),
        reads_exprs(ts, n, seq![first], es, m) ==> {
            &&& reads_rest(ts, "function"@, first, n, TypeExprModel::Function(es), m)
            &&& reads_rest(ts, "sum"@, first, n, TypeExprModel::Sum(es), m)
            &&& reads_rest(ts, "product"@, first, n, TypeExprModel::Product(es), m)
        },
{
    lemma_words();
    reveal(reads_rest);
    reveal(reads_exprs);
}

proof fn lemma_simple_expr(e: TypeExprModel, ts: Seq<TokenModel>, p: int)
    requires
        is_spelled_expr(e),
        stands(ts, p, expr_tokens(e)),
        e is Self_ || e is Return || e is Literal || e is Field || e is Param,
    ensures
        reads_expr(ts, p, e, p + expr_tokens(e).len()),
        expr_tokens(e).len() > 0,
{
    let x = expr_tokens(e);
    lemma_words();
    reveal(reads_expr);
    match e {
        TypeExprModel::Self_ => {
            lemma_first(ts, p, word("Self"@));
        },
        TypeExprModel::Return => {
            lemma_first(ts, p, word("return"@));
        },
        TypeExprModel::Literal(t) => match t {
            TypeReprModel::Named(name) => {
                lemma_first(ts, p, word(name));
            },
            _ => {
                lemma_first(ts, p, TokenModel::TypeLit(type_text(t)));
                written_types_are_read_back(t);
                assert(type_reading(type_text(t)) == Some(
                    Ok::<TypeReprModel, ParseErrorModel>(t),
                ));
                assert(type_of(type_text(t)) == Ok::<TypeReprModel, TroubleModel>(t));
            },
        },
        TypeExprModel::Field(name) => {
            assert(x =~= call("field"@) + (seq![word(name)] + closing()));
            lemma_split(ts, p, call("field"@), seq![word(name)] + closing());
            lemma_split(ts, p + 2, seq![word(name)], closing());
            lemma_call(ts, p, "field"@);
            lemma_first(ts, p + 2, word(name));
            lemma_first(ts, p + 3, TokenModel::RParen);
        },
        TypeExprModel::Param(r) => {
            let t = match r {
                ParamRefModel::Index(n) => TokenModel::Integer(n),
                ParamRefModel::Name(s) => TokenModel::StringLit(s),
            };
            assert(x =~= call("param"@) + (seq![t] + closing()));
            lemma_split(ts, p, call("param"@), seq![t] + closing());
            lemma_split(ts, p + 2, seq![t], closing());
            lemma_call(ts, p, "param"@);
            lemma_first(ts, p + 2, t);
            lemma_first(ts, p + 3, TokenModel::RParen);
        },
        _ => {},
    }
}

/// A type function with one type and a number or nothing behind it.
proof fn lemma_one_argument(
    name: Seq<char>,
    inner: TypeExprModel,
    number: Option<usize>,
    e: TypeExprModel,
    ts: Seq<TokenModel>,
    p: int,
)
    requires
        is_spelled_expr(e),
        stands(ts, p, expr_tokens(e)),
        (name == "con"@ && e == TypeExprModel::Con(Box::new(inner)) && number is None) || (name
            == "codomain"@ && e == TypeExprModel::Codomain(Box::new(inner)) && number is None) || (
        name == "domain"@ && e == TypeExprModel::Domain(Box::new(inner), number)) || (name
            == "arg"@ && (number matches Some(i) && e == TypeExprModel::Arg(Box::new(inner), i))),
    ensures
        reads_expr(ts, p, e, p + expr_tokens(e).len()),
    decreases e, 0nat,
{
    lemma_words();
    let x = expr_tokens(e);
    let a = expr_tokens(inner);
    let b = match number {
        Some(i) => seq![TokenModel::Comma, TokenModel::Integer(i)],
        None => Seq::<TokenModel>::empty(),
    };
    assert(x =~= call(name) + (a + (b + closing())));
    lemma_split(ts, p, call(name), a + (b + closing()));
    lemma_call(ts, p, name);
    lemma_split(ts, p + 2, a, b + closing());
    let n = p + 2 + a.len();
    lemma_split(ts, n, b, closing());
    lemma_first(ts, n + b.len(), TokenModel::RParen);
    assert(is_spelled_expr(inner));
    lemma_expr(inner, ts, p + 2);
    match number {
        Some(i) => {
            assert(ts[n + 0] == b[0]);
            assert(ts[n + 1] == b[1]);
            lemma_rest_number(ts, inner, n, i);
        },
        None => {
            lemma_rest_plain(ts, inner, n);
        },
    }
    lemma_function_step(ts, p, name, inner, n, e, n + b.len());
}

/// A type function with a list of types.
proof fn lemma_many_arguments(
    name: Seq<char>,
    types: Seq<TypeExprModel>,
    e: TypeExprModel,
    ts: Seq<TokenModel>,
    p: int,
)
    requires
        is_spelled_expr(e),
        stands(ts, p, expr_tokens(e)),
        (name == "function"@ && e == TypeExprModel::Function(types)) || (name == "sum"@ && e
            == TypeExprModel::Sum(types)) || (name == "product"@ && e == TypeExprModel::Product(
            types,
        )),
    ensures
        reads_expr(ts, p, e, p + expr_tokens(e).len()),
    decreases e, 0nat,
{
    lemma_words();
    let x = expr_tokens(e);
    let first = types[0];
    let a = expr_tokens(first);
    let b = list_tokens(types, 1);
    assert(are_spelled_exprs(types));
    assert(is_spelled_expr(first));
    assert(first_tokens(types) == a);
    assert(x =~= call(name) + (a + (b + closing())));
    lemma_split(ts, p, call(name), a + (b + closing()));
    lemma_call(ts, p, name);
    lemma_split(ts, p + 2, a, b + closing());
    let n = p + 2 + a.len();
    lemma_expr(first, ts, p + 2);
    lemma_list(types, 1, seq![first], ts, n);
    assert(seq![first] + types.skip(1) =~= types);
    lemma_rest_list(ts, first, n, types, n + b.len());
    lemma_function_step(ts, p, name, first, n, e, n + b.len());
}

proof fn lemma_expr(e: TypeExprModel, ts: Seq<TokenModel>, p: int)
    requires
        is_spelled_expr(e),
        stands(ts, p, expr_tokens(e)),
    ensures
        reads_expr(ts, p, e, p + expr_tokens(e).len()),
        expr_tokens(e).len() > 0,
        0 <= p,
        p + expr_tokens(e).len() <= ts.len(),
    decreases e, 1nat,
{
    match e {
        TypeExprModel::Con(inner) => {
            lemma_one_argument("con"@, *inner, None, e, ts, p);
        },
        TypeExprModel::Arg(inner, n) => {
            lemma_one_argument("arg"@, *inner, Some(n), e, ts, p);
        },
        TypeExprModel::Domain(inner, n) => {
            lemma_one_argument("domain"@, *inner, n, e, ts, p);
        },
        TypeExprModel::Codomain(inner) => {
            lemma_one_argument("codomain"@, *inner, None, e, ts, p);
        },
        TypeExprModel::Function(types) => {
            lemma_many_arguments("function"@, types, e, ts, p);
        },
        TypeExprModel::Sum(types) => {
            lemma_many_arguments("sum"@, types, e, ts, p);
        },
        TypeExprModel::Product(types) => {
            lemma_many_arguments("product"@, types, e, ts, p);
        },
        TypeExprModel::Apply(f, args) => {
            lemma_words();
            let x = expr_tokens(e);
            let a = expr_tokens(*f);
            let b = list_tokens(args, 0);
            assert(x =~= call("apply"@) + (a + (b + closing())));
            lemma_split(ts, p, call("apply"@), a + (b + closing()));
            lemma_call(ts, p, "apply"@);
            lemma_split(ts, p + 2, a, b + closing());
            let n = p + 2 + a.len();
            lemma_expr(*f, ts, p + 2);
            lemma_list(args, 0, Seq::empty(), ts, n);
            assert(Seq::<TypeExprModel>::empty() + args.skip(0) =~= args);
            lemma_rest_list(ts, *f, n, args, n + b.len());
            lemma_function_step(ts, p, "apply"@, *f, n, e, n + b.len());
        },
        _ => {
            lemma_simple_expr(e, ts, p);
        },
    }
}

/// Type expressions are read as they are spelled, wherever they stand.
pub proof fn spelled_type_expressions_are_read(e: TypeExprModel, ts: Seq<TokenModel>, p: int)
    requires
        is_spelled_expr(e),
        stands(ts, p, expr_tokens(e)),
    ensures
        type_expr_at(ts, p) == Ok::<(TypeExprModel, int), TroubleModel>(
            (e, p + expr_tokens(e).len()),
        ),
{
    lemma_expr(e, ts, p);
    reveal(reads_expr);
}

// ─── Formulas ─────────────────────────────────────────────────────────────────

/// How a predicate of one type is spelled.
pub open spec fn one_type(name: Seq<char>, t: TypeExprModel) -> Seq<TokenModel> {
    call(name) + expr_tokens(t) + closing()
}

/// How a predicate of a type and something else is spelled.
pub open spec fn type_and(name: Seq<char>, t: TypeExprModel, other: Seq<TokenModel>) -> Seq<
    TokenModel,
> {
    call(name) + expr_tokens(t) + comma() + other + closing()
}

/// How a predicate is spelled.
pub open spec fn predicate_tokens(p: PredicateModel) -> Seq<TokenModel> {
    match p {
        PredicateModel::Equals(a, b) => type_and("equals"@, a, expr_tokens(b)),
        PredicateModel::Matches(t, s) => type_and("matches"@, t, seq![TokenModel::StringLit(s)]),
        PredicateModel::IsSubtype(t, s) => type_and("is_subtype"@, t, seq![word(s)]),
        PredicateModel::HasField(t, s) => type_and("has_field"@, t, seq![word(s)]),
        PredicateModel::HasMethod(t, s) => type_and("has_method"@, t, seq![word(s)]),
        PredicateModel::HasVariant(t, s) => type_and("has_variant"@, t, seq![word(s)]),
        PredicateModel::IsSum(t) => one_type("is_sum"@, t),
        PredicateModel::IsProduct(t) => one_type("is_product"@, t),
        PredicateModel::IsFunction(t) => one_type("is_function"@, t),
        PredicateModel::Cloneable(t) => one_type("cloneable"@, t),
        PredicateModel::Serializable(t) => one_type("serializable"@, t),
        PredicateModel::Send(t) => one_type("send"@, t),
        PredicateModel::Sync(t) => one_type("sync"@, t),
        PredicateModel::Fallible(t) => one_type("fallible"@, t),
        PredicateModel::NoUnsafe(t) => one_type("no_unsafe"@, t),
    }
}

/// Whether the types in a predicate have a spelling.
pub open spec fn is_spelled_predicate(p: PredicateModel) -> bool {
    match p {
        PredicateModel::Equals(a, b) => is_spelled_expr(a) && is_spelled_expr(b),
        PredicateModel::Matches(t, _) => is_spelled_expr(t),
        PredicateModel::IsSubtype(t, _) => is_spelled_expr(t),
        PredicateModel::HasField(t, _) => is_spelled_expr(t),
        PredicateModel::HasMethod(t, _) => is_spelled_expr(t),
        PredicateModel::HasVariant(t, _) => is_spelled_expr(t),
        PredicateModel::IsSum(t) => is_spelled_expr(t),
        PredicateModel::IsProduct(t) => is_spelled_expr(t),
        PredicateModel::IsFunction(t) => is_spelled_expr(t),
        PredicateModel::Cloneable(t) => is_spelled_expr(t),
        PredicateModel::Serializable(t) => is_spelled_expr(t),
        PredicateModel::Send(t) => is_spelled_expr(t),
        PredicateModel::Sync(t) => is_spelled_expr(t),
        PredicateModel::Fallible(t) => is_spelled_expr(t),
        PredicateModel::NoUnsafe(t) => is_spelled_expr(t),
    }
}

pub open spec fn opening() -> Seq<TokenModel> {
    seq![TokenModel::LParen]
}

/// How a formula is spelled where it stands behind `not`, or beside `and`.
pub open spec fn unary_tokens(f: FormulaModel) -> Seq<TokenModel>
    decreases f, 0nat,
{
    match f {
        FormulaModel::Pred(p) => predicate_tokens(p),
        FormulaModel::Not(g) => seq![word("not"@)] + unary_tokens(*g),
        FormulaModel::Implies(a, b) => call("implies"@) + formula_tokens(*a) + comma()
            + formula_tokens(*b) + closing(),
        FormulaModel::And(parts) => opening() + and_tokens(parts, 0) + closing(),
        FormulaModel::Or(parts) => opening() + or_tokens(parts, 0) + closing(),
    }
}

/// How a formula is spelled where it stands beside `or`.
pub open spec fn conjunction_tokens(f: FormulaModel) -> Seq<TokenModel>
    decreases f, 1nat,
{
    match f {
        FormulaModel::And(parts) => and_tokens(parts, 0),
        _ => unary_tokens(f),
    }
}

/// How a formula is spelled.
pub open spec fn formula_tokens(f: FormulaModel) -> Seq<TokenModel>
    decreases f, 2nat,
{
    match f {
        FormulaModel::Or(parts) => or_tokens(parts, 0),
        _ => conjunction_tokens(f),
    }
}

/// The parts from `k` on, with `and` between them, and before them unless they are all.
pub open spec fn and_tokens(parts: Seq<FormulaModel>, k: int) -> Seq<TokenModel>
    decreases parts, parts.len() - k,
{
    if 0 <= k < parts.len() {
        (if k == 0 {
            Seq::empty()
        } else {
            seq![word("and"@)]
        }) + unary_tokens(parts[k]) + and_tokens(parts, k + 1)
    } else {
        Seq::empty()
    }
}

/// The parts from `k` on, with `or` between them, and before them unless they are all.
pub open spec fn or_tokens(parts: Seq<FormulaModel>, k: int) -> Seq<TokenModel>
    decreases parts, parts.len() - k,
{
    if 0 <= k < parts.len() {
        (if k == 0 {
            Seq::empty()
        } else {
            seq![word("or"@)]
        }) + conjunction_tokens(parts[k]) + or_tokens(parts, k + 1)
    } else {
        Seq::empty()
    }
}

/// Whether a formula has a spelling. A conjunction does not begin with a conjunction, nor a
/// disjunction with a disjunction: the two would be one.
pub open spec fn is_spelled(f: FormulaModel) -> bool
    decreases f,
{
    match f {
        FormulaModel::Pred(p) => is_spelled_predicate(p),
        FormulaModel::Not(g) => is_spelled(*g),
        FormulaModel::Implies(a, b) => is_spelled(*a) && is_spelled(*b),
        FormulaModel::And(parts) => parts.len() >= 2 && !(parts[0] is And) && are_spelled(parts),
        FormulaModel::Or(parts) => parts.len() >= 2 && !(parts[0] is Or) && are_spelled(parts),
    }
}

pub open spec fn are_spelled(fs: Seq<FormulaModel>) -> bool
    decreases fs,
{
    forall|i: int| 0 <= i < fs.len() ==> is_spelled(#[trigger] fs[i])
}

// ─── Reading formulas ─────────────────────────────────────────────────────────

#[verifier::opaque]
pub open spec fn reads_unary(ts: Seq<TokenModel>, p: int, f: FormulaModel, n: int) -> bool {
    unary_at(ts, p) == Ok::<(FormulaModel, int), TroubleModel>((f, n))
}

#[verifier::opaque]
pub open spec fn reads_conjunction(ts: Seq<TokenModel>, p: int, f: FormulaModel, n: int) -> bool {
    conjunction_at(ts, p) == Ok::<(FormulaModel, int), TroubleModel>((f, n))
}

#[verifier::opaque]
pub open spec fn reads_formula(ts: Seq<TokenModel>, p: int, f: FormulaModel, n: int) -> bool {
    formula_at(ts, p) == Ok::<(FormulaModel, int), TroubleModel>((f, n))
}

#[verifier::opaque]
pub open spec fn reads_and(
    ts: Seq<TokenModel>,
    p: int,
    left: FormulaModel,
    f: FormulaModel,
    n: int,
) -> bool {
    and_rest(ts, p, left) == Ok::<(FormulaModel, int), TroubleModel>((f, n))
}

#[verifier::opaque]
pub open spec fn reads_or(
    ts: Seq<TokenModel>,
    p: int,
    left: FormulaModel,
    f: FormulaModel,
    n: int,
) -> bool {
    or_rest(ts, p, left) == Ok::<(FormulaModel, int), TroubleModel>((f, n))
}

#[verifier::opaque]
pub open spec fn reads_predicate(ts: Seq<TokenModel>, p: int, f: FormulaModel, n: int) -> bool {
    predicate_at(ts, p) == Ok::<(FormulaModel, int), TroubleModel>((f, n))
}

/// The words of formulas differ.
proof fn lemma_predicate_words()
    ensures
        "not"@.len() == 3,
        "and"@.len() == 3,
        "not"@[0] == 'n',
        "and"@[0] == 'a',
        "or"@.len() == 2,
        "equals"@.len() == 6,
        "equals"@[0] == 'e',
        "is_sum"@.len() == 6,
        "is_sum"@[0] == 'i',
        "matches"@.len() == 7,
        "matches"@[0] == 'm',
        "implies"@.len() == 7,
        "implies"@[0] == 'i',
        "is_subtype"@.len() == 10,
        "is_subtype"@[0] == 'i',
        "is_subtype"@[3] == 's',
        "has_method"@.len() == 10,
        "has_method"@[0] == 'h',
        "is_product"@.len() == 10,
        "is_product"@[0] == 'i',
        "is_product"@[3] == 'p',
        "has_field"@.len() == 9,
        "has_field"@[0] == 'h',
        "cloneable"@.len() == 9,
        "cloneable"@[0] == 'c',
        "no_unsafe"@.len() == 9,
        "no_unsafe"@[0] == 'n',
        "has_variant"@.len() == 11,
        "has_variant"@[0] == 'h',
        "is_function"@.len() == 11,
        "is_function"@[0] == 'i',
        "serializable"@.len() == 12,
        "send"@.len() == 4,
        "send"@[1] == 'e',
        "sync"@.len() == 4,
        "sync"@[1] == 'y',
        "fallible"@.len() == 8,
{
    reveal_strlit("not");
    reveal_strlit("and");
    reveal_strlit("or");
    reveal_strlit("equals");
    reveal_strlit("is_sum");
    reveal_strlit("matches");
    reveal_strlit("implies");
    reveal_strlit("is_subtype");
    reveal_strlit("has_method");
    reveal_strlit("is_product");
    reveal_strlit("has_field");
    reveal_strlit("cloneable");
    reveal_strlit("no_unsafe");
    reveal_strlit("has_variant");
    reveal_strlit("is_function");
    reveal_strlit("serializable");
    reveal_strlit("send");
    reveal_strlit("sync");
    reveal_strlit("fallible");
}

/// The predicates of one type by their words.
pub open spec fn of_one_type(name: Seq<char>, t: TypeExprModel, p: PredicateModel) -> bool {
    ||| name == "is_sum"@ && p == PredicateModel::IsSum(t)
    ||| name == "is_product"@ && p == PredicateModel::IsProduct(t)
    ||| name == "is_function"@ && p == PredicateModel::IsFunction(t)
    ||| name == "cloneable"@ && p == PredicateModel::Cloneable(t)
    ||| name == "serializable"@ && p == PredicateModel::Serializable(t)
    ||| name == "send"@ && p == PredicateModel::Send(t)
    ||| name == "sync"@ && p == PredicateModel::Sync(t)
    ||| name == "fallible"@ && p == PredicateModel::Fallible(t)
    ||| name == "no_unsafe"@ && p == PredicateModel::NoUnsafe(t)
}

/// The predicates of a type and a name by their words.
pub open spec fn of_type_and_name(
    name: Seq<char>,
    t: TypeExprModel,
    s: Seq<char>,
    p: PredicateModel,
) -> bool {
    ||| name == "is_subtype"@ && p == PredicateModel::IsSubtype(t, s)
    ||| name == "has_field"@ && p == PredicateModel::HasField(t, s)
    ||| name == "has_method"@ && p == PredicateModel::HasMethod(t, s)
    ||| name == "has_variant"@ && p == PredicateModel::HasVariant(t, s)
}

proof fn lemma_one_type_step(
    ts: Seq<TokenModel>,
    at: int,
    name: Seq<char>,
    t: TypeExprModel,
    n: int,
    p: PredicateModel,
)
    requires
        of_one_type(name, t, p),
        token(ts, at) == Some(word(name)),
        token(ts, at + 1) == Some(TokenModel::LParen),
        reads_expr(ts, at + 2, t, n),
        token(ts, n) == Some(TokenModel::RParen),
    ensures
        reads_predicate(ts, at, FormulaModel::Pred(p), n + 1),
{
    lemma_predicate_words();
    reveal(reads_expr);
    reveal(reads_predicate);
}

proof fn lemma_type_and_name_step(
    ts: Seq<TokenModel>,
    at: int,
    name: Seq<char>,
    t: TypeExprModel,
    n: int,
    s: Seq<char>,
    p: PredicateModel,
)
    requires
        of_type_and_name(name, t, s, p),
        token(ts, at) == Some(word(name)),
        token(ts, at + 1) == Some(TokenModel::LParen),
        reads_expr(ts, at + 2, t, n),
        token(ts, n) == Some(TokenModel::Comma),
        token(ts, n + 1) == Some(word(s)),
        token(ts, n + 2) == Some(TokenModel::RParen),
    ensures
        reads_predicate(ts, at, FormulaModel::Pred(p), n + 3),
{
    lemma_predicate_words();
    reveal(reads_expr);
    reveal(reads_predicate);
}

proof fn lemma_equals_step(
    ts: Seq<TokenModel>,
    at: int,
    a: TypeExprModel,
    n: int,
    b: TypeExprModel,
    m: int,
)
    requires
        token(ts, at) == Some(word("equals"@)),
        token(ts, at + 1) == Some(TokenModel::LParen),
        reads_expr(ts, at + 2, a, n),
        token(ts, n) == Some(TokenModel::Comma),
        reads_expr(ts, n + 1, b, m),
        token(ts, m) == Some(TokenModel::RParen),
    ensures
        reads_predicate(ts, at, FormulaModel::Pred(PredicateModel::Equals(a, b)), m + 1),
{
    lemma_predicate_words();
    reveal(reads_expr);
    reveal(reads_predicate);
}

proof fn lemma_matches_step(
    ts: Seq<TokenModel>,
    at: int,
    t: TypeExprModel,
    n: int,
    s: Seq<char>,
)
    requires
        token(ts, at) == Some(word("matches"@)),
        token(ts, at + 1) == Some(TokenModel::LParen),
        reads_expr(ts, at + 2, t, n),
        token(ts, n) == Some(TokenModel::Comma),
        token(ts, n + 1) == Some(TokenModel::StringLit(s)),
        token(ts, n + 2) == Some(TokenModel::RParen),
    ensures
        reads_predicate(ts, at, FormulaModel::Pred(PredicateModel::Matches(t, s)), n + 3),
{
    lemma_predicate_words();
    reveal(reads_expr);
    reveal(reads_predicate);
}

proof fn lemma_one_type(
    name: Seq<char>,
    t: TypeExprModel,
    p: PredicateModel,
    ts: Seq<TokenModel>,
    at: int,
)
    requires
        of_one_type(name, t, p),
        is_spelled_expr(t),
        stands(ts, at, one_type(name, t)),
    ensures
        reads_predicate(ts, at, FormulaModel::Pred(p), at + one_type(name, t).len()),
        token(ts, at) == Some(word(name)),
{
    let a = expr_tokens(t);
    assert(one_type(name, t) =~= call(name) + (a + closing()));
    lemma_split(ts, at, call(name), a + closing());
    lemma_call(ts, at, name);
    lemma_split(ts, at + 2, a, closing());
    lemma_expr(t, ts, at + 2);
    let n = at + 2 + a.len();
    lemma_first(ts, n, TokenModel::RParen);
    lemma_one_type_step(ts, at, name, t, n, p);
}

proof fn lemma_type_and(
    name: Seq<char>,
    t: TypeExprModel,
    other: Seq<TokenModel>,
    ts: Seq<TokenModel>,
    at: int,
)
    requires
        is_spelled_expr(t),
        stands(ts, at, type_and(name, t, other)),
    ensures
        ({
            let n = at + 2 + expr_tokens(t).len();
            &&& token(ts, at) == Some(word(name))
            &&& token(ts, at + 1) == Some(TokenModel::LParen)
            &&& reads_expr(ts, at + 2, t, n)
            &&& token(ts, n) == Some(TokenModel::Comma)
            &&& stands(ts, n + 1, other)
            &&& token(ts, n + 1 + other.len()) == Some(TokenModel::RParen)
            &&& type_and(name, t, other).len() == n + 2 + other.len() - at
        }),
{
    let a = expr_tokens(t);
    assert(type_and(name, t, other) =~= call(name) + (a + (comma() + (other + closing()))));
    lemma_split(ts, at, call(name), a + (comma() + (other + closing())));
    lemma_call(ts, at, name);
    lemma_split(ts, at + 2, a, comma() + (other + closing()));
    lemma_expr(t, ts, at + 2);
    let n = at + 2 + a.len();
    lemma_split(ts, n, comma(), other + closing());
    lemma_first(ts, n, TokenModel::Comma);
    lemma_split(ts, n + 1, other, closing());
    lemma_first(ts, n + 1 + other.len(), TokenModel::RParen);
}

proof fn lemma_type_and_name(
    name: Seq<char>,
    t: TypeExprModel,
    s: Seq<char>,
    p: PredicateModel,
    ts: Seq<TokenModel>,
    at: int,
)
    requires
        of_type_and_name(name, t, s, p),
        is_spelled_expr(t),
        stands(ts, at, type_and(name, t, seq![word(s)])),
    ensures
        reads_predicate(ts, at, FormulaModel::Pred(p), at + type_and(name, t, seq![word(s)]).len()),
        token(ts, at) == Some(word(name)),
{
    lemma_type_and(name, t, seq![word(s)], ts, at);
    let n = at + 2 + expr_tokens(t).len();
    lemma_first(ts, n + 1, word(s));
    lemma_type_and_name_step(ts, at, name, t, n, s, p);
}

/// A predicate is read as it is spelled, and does not begin with `not`.
proof fn lemma_predicate(p: PredicateModel, ts: Seq<TokenModel>, at: int)
    requires
        is_spelled_predicate(p),
        stands(ts, at, predicate_tokens(p)),
    ensures
        reads_predicate(ts, at, FormulaModel::Pred(p), at + predicate_tokens(p).len()),
        predicate_tokens(p).len() > 0,
        token(ts, at) matches Some(TokenModel::Ident(name)) && name != "not"@,
{
    lemma_predicate_words();
    match p {
        PredicateModel::Equals(a, b) => {
            let other = expr_tokens(b);
            lemma_type_and("equals"@, a, other, ts, at);
            let n = at + 2 + expr_tokens(a).len();
            lemma_expr(b, ts, n + 1);
            lemma_equals_step(ts, at, a, n, b, n + 1 + other.len());
        },
        PredicateModel::Matches(t, s) => {
            lemma_type_and("matches"@, t, seq![TokenModel::StringLit(s)], ts, at);
            let n = at + 2 + expr_tokens(t).len();
            lemma_first(ts, n + 1, TokenModel::StringLit(s));
            lemma_matches_step(ts, at, t, n, s);
        },
        PredicateModel::IsSubtype(t, s) => {
            lemma_type_and_name("is_subtype"@, t, s, p, ts, at);
        },
        PredicateModel::HasField(t, s) => {
            lemma_type_and_name("has_field"@, t, s, p, ts, at);
        },
        PredicateModel::HasMethod(t, s) => {
            lemma_type_and_name("has_method"@, t, s, p, ts, at);
        },
        PredicateModel::HasVariant(t, s) => {
            lemma_type_and_name("has_variant"@, t, s, p, ts, at);
        },
        PredicateModel::IsSum(t) => {
            lemma_one_type("is_sum"@, t, p, ts, at);
        },
        PredicateModel::IsProduct(t) => {
            lemma_one_type("is_product"@, t, p, ts, at);
        },
        PredicateModel::IsFunction(t) => {
            lemma_one_type("is_function"@, t, p, ts, at);
        },
        PredicateModel::Cloneable(t) => {
            lemma_one_type("cloneable"@, t, p, ts, at);
        },
        PredicateModel::Serializable(t) => {
            lemma_one_type("serializable"@, t, p, ts, at);
        },
        PredicateModel::Send(t) => {
            lemma_one_type("send"@, t, p, ts, at);
        },
        PredicateModel::Sync(t) => {
            lemma_one_type("sync"@, t, p, ts, at);
        },
        PredicateModel::Fallible(t) => {
            lemma_one_type("fallible"@, t, p, ts, at);
        },
        PredicateModel::NoUnsafe(t) => {
            lemma_one_type("no_unsafe"@, t, p, ts, at);
        },
    }
}

proof fn lemma_unary_predicate_step(ts: Seq<TokenModel>, at: int, f: FormulaModel, n: int)
    requires
        reads_predicate(ts, at, f, n),
        token(ts, at) matches Some(TokenModel::Ident(name)) && name != "not"@,
    ensures
        reads_unary(ts, at, f, n),
{
    reveal(reads_predicate);
    reveal(reads_unary);
}

proof fn lemma_not_step(ts: Seq<TokenModel>, at: int, f: FormulaModel, n: int)
    requires
        token(ts, at) == Some(word("not"@)),
        reads_unary(ts, at + 1, f, n),
    ensures
        reads_unary(ts, at, FormulaModel::Not(Box::new(f)), n),
{
    reveal(reads_unary);
}

proof fn lemma_parentheses_step(ts: Seq<TokenModel>, at: int, f: FormulaModel, n: int)
    requires
        token(ts, at) == Some(TokenModel::LParen),
        reads_formula(ts, at + 1, f, n),
        token(ts, n) == Some(TokenModel::RParen),
    ensures
        reads_unary(ts, at, f, n + 1),
{
    reveal(reads_formula);
    reveal(reads_unary);
}

proof fn lemma_implies_step(
    ts: Seq<TokenModel>,
    at: int,
    a: FormulaModel,
    n: int,
    b: FormulaModel,
    m: int,
)
    requires
        token(ts, at) == Some(word("implies"@)),
        token(ts, at + 1) == Some(TokenModel::LParen),
        reads_formula(ts, at + 2, a, n),
        at <= n < ts.len(),
        token(ts, n) == Some(TokenModel::Comma),
        reads_formula(ts, n + 1, b, m),
        token(ts, m) == Some(TokenModel::RParen),
    ensures
        reads_predicate(ts, at, FormulaModel::Implies(Box::new(a), Box::new(b)), m + 1),
{
    lemma_predicate_words();
    reveal(reads_formula);
    reveal(reads_predicate);
}

proof fn lemma_and_step(
    ts: Seq<TokenModel>,
    at: int,
    left: FormulaModel,
    right: FormulaModel,
    q: int,
    f: FormulaModel,
    n: int,
)
    requires
        token(ts, at) == Some(word("and"@)),
        reads_unary(ts, at + 1, right, q),
        at < q <= ts.len(),
        reads_and(ts, q, super::parser::with_and(left, right), f, n),
    ensures
        reads_and(ts, at, left, f, n),
{
    reveal(reads_unary);
    reveal(reads_and);
}

proof fn lemma_and_end(ts: Seq<TokenModel>, at: int, left: FormulaModel)
    requires
        token(ts, at) != Some(word("and"@)),
    ensures
        reads_and(ts, at, left, left, at),
{
    reveal(reads_and);
}

proof fn lemma_conjunction_step(
    ts: Seq<TokenModel>,
    at: int,
    left: FormulaModel,
    q: int,
    f: FormulaModel,
    n: int,
)
    requires
        reads_unary(ts, at, left, q),
        at < q <= ts.len(),
        reads_and(ts, q, left, f, n),
    ensures
        reads_conjunction(ts, at, f, n),
{
    reveal(reads_unary);
    reveal(reads_and);
    reveal(reads_conjunction);
}

proof fn lemma_or_step(
    ts: Seq<TokenModel>,
    at: int,
    left: FormulaModel,
    right: FormulaModel,
    q: int,
    f: FormulaModel,
    n: int,
)
    requires
        token(ts, at) == Some(word("or"@)),
        reads_conjunction(ts, at + 1, right, q),
        at < q <= ts.len(),
        reads_or(ts, q, super::parser::with_or(left, right), f, n),
    ensures
        reads_or(ts, at, left, f, n),
{
    reveal(reads_conjunction);
    reveal(reads_or);
}

proof fn lemma_or_end(ts: Seq<TokenModel>, at: int, left: FormulaModel)
    requires
        token(ts, at) != Some(word("or"@)),
    ensures
        reads_or(ts, at, left, left, at),
{
    reveal(reads_or);
}

proof fn lemma_formula_step(
    ts: Seq<TokenModel>,
    at: int,
    left: FormulaModel,
    q: int,
    f: FormulaModel,
    n: int,
)
    requires
        reads_conjunction(ts, at, left, q),
        at < q <= ts.len(),
        reads_or(ts, q, left, f, n),
    ensures
        reads_formula(ts, at, f, n),
{
    reveal(reads_conjunction);
    reveal(reads_or);
    reveal(reads_formula);
}

/// The parts of a conjunction from `k` on, read behind those before.
proof fn lemma_and_parts(parts: Seq<FormulaModel>, k: int, ts: Seq<TokenModel>, p: int)
    requires
        1 <= k <= parts.len(),
        parts.len() >= 2,
        !(parts[0] is And),
        are_spelled(parts),
        stands(ts, p, and_tokens(parts, k)),
        token(ts, p + and_tokens(parts, k).len()) != Some(word("and"@)),
    ensures
        reads_and(
            ts,
            p,
            if k == 1 {
                parts[0]
            } else {
                FormulaModel::And(parts.take(k))
            },
            FormulaModel::And(parts),
            p + and_tokens(parts, k).len(),
        ),
    decreases parts, parts.len() - k,
{
    let left = if k == 1 {
        parts[0]
    } else {
        FormulaModel::And(parts.take(k))
    };
    let x = and_tokens(parts, k);
    if k < parts.len() {
        let f = parts[k];
        let a = unary_tokens(f);
        let rest = and_tokens(parts, k + 1);
        assert(x =~= seq![word("and"@)] + (a + rest));
        lemma_split(ts, p, seq![word("and"@)], a + rest);
        lemma_first(ts, p, word("and"@));
        lemma_split(ts, p + 1, a, rest);
        assert(is_spelled(f));
        lemma_unary(f, ts, p + 1);
        let q = p + 1 + a.len();
        lemma_and_parts(parts, k + 1, ts, q);
        let next = super::parser::with_and(left, f);
        if k == 1 {
            assert(seq![parts[0], f] =~= parts.take(2));
        } else {
            assert(parts.take(k).push(f) =~= parts.take(k + 1));
        }
        assert(next == FormulaModel::And(parts.take(k + 1)));
        lemma_and_step(ts, p, left, f, q, FormulaModel::And(parts), q + rest.len());
    } else {
        assert(parts.take(k) =~= parts);
        lemma_and_end(ts, p, left);
    }
}

proof fn lemma_and_body(parts: Seq<FormulaModel>, ts: Seq<TokenModel>, p: int)
    requires
        parts.len() >= 2,
        !(parts[0] is And),
        are_spelled(parts),
        stands(ts, p, and_tokens(parts, 0)),
        token(ts, p + and_tokens(parts, 0).len()) != Some(word("and"@)),
    ensures
        reads_conjunction(ts, p, FormulaModel::And(parts), p + and_tokens(parts, 0).len()),
        and_tokens(parts, 0).len() > 0,
    decreases parts, parts.len() + 1,
{
    let a = unary_tokens(parts[0]);
    let rest = and_tokens(parts, 1);
    assert(and_tokens(parts, 0) =~= a + rest);
    lemma_split(ts, p, a, rest);
    assert(is_spelled(parts[0]));
    lemma_unary(parts[0], ts, p);
    let q = p + a.len();
    lemma_and_parts(parts, 1, ts, q);
    lemma_conjunction_step(ts, p, parts[0], q, FormulaModel::And(parts), q + rest.len());
}

proof fn lemma_or_parts(parts: Seq<FormulaModel>, k: int, ts: Seq<TokenModel>, p: int)
    requires
        1 <= k <= parts.len(),
        parts.len() >= 2,
        !(parts[0] is Or),
        are_spelled(parts),
        stands(ts, p, or_tokens(parts, k)),
        token(ts, p + or_tokens(parts, k).len()) != Some(word("or"@)),
        token(ts, p + or_tokens(parts, k).len()) != Some(word("and"@)),
    ensures
        reads_or(
            ts,
            p,
            if k == 1 {
                parts[0]
            } else {
                FormulaModel::Or(parts.take(k))
            },
            FormulaModel::Or(parts),
            p + or_tokens(parts, k).len(),
        ),
        token(ts, p) != Some(word("and"@)),
    decreases parts, parts.len() - k,
{
    lemma_predicate_words();
    let left = if k == 1 {
        parts[0]
    } else {
        FormulaModel::Or(parts.take(k))
    };
    let x = or_tokens(parts, k);
    if k < parts.len() {
        let f = parts[k];
        let a = conjunction_tokens(f);
        let rest = or_tokens(parts, k + 1);
        assert(x =~= seq![word("or"@)] + (a + rest));
        lemma_split(ts, p, seq![word("or"@)], a + rest);
        lemma_first(ts, p, word("or"@));
        lemma_split(ts, p + 1, a, rest);
        assert(is_spelled(f));
        let q = p + 1 + a.len();
        lemma_or_parts(parts, k + 1, ts, q);
        lemma_conjunction(f, ts, p + 1);
        let next = super::parser::with_or(left, f);
        if k == 1 {
            assert(seq![parts[0], f] =~= parts.take(2));
        } else {
            assert(parts.take(k).push(f) =~= parts.take(k + 1));
        }
        assert(next == FormulaModel::Or(parts.take(k + 1)));
        lemma_or_step(ts, p, left, f, q, FormulaModel::Or(parts), q + rest.len());
    } else {
        assert(parts.take(k) =~= parts);
        lemma_or_end(ts, p, left);
    }
}

proof fn lemma_or_body(parts: Seq<FormulaModel>, ts: Seq<TokenModel>, p: int)
    requires
        parts.len() >= 2,
        !(parts[0] is Or),
        are_spelled(parts),
        stands(ts, p, or_tokens(parts, 0)),
        token(ts, p + or_tokens(parts, 0).len()) != Some(word("or"@)),
        token(ts, p + or_tokens(parts, 0).len()) != Some(word("and"@)),
    ensures
        reads_formula(ts, p, FormulaModel::Or(parts), p + or_tokens(parts, 0).len()),
        or_tokens(parts, 0).len() > 0,
    decreases parts, parts.len() + 1,
{
    let a = conjunction_tokens(parts[0]);
    let rest = or_tokens(parts, 1);
    assert(or_tokens(parts, 0) =~= a + rest);
    lemma_split(ts, p, a, rest);
    assert(is_spelled(parts[0]));
    let q = p + a.len();
    lemma_or_parts(parts, 1, ts, q);
    lemma_conjunction(parts[0], ts, p);
    lemma_formula_step(ts, p, parts[0], q, FormulaModel::Or(parts), q + rest.len());
}

proof fn lemma_unary(f: FormulaModel, ts: Seq<TokenModel>, p: int)
    requires
        is_spelled(f),
        stands(ts, p, unary_tokens(f)),
    ensures
        reads_unary(ts, p, f, p + unary_tokens(f).len()),
        unary_tokens(f).len() > 0,
        0 <= p,
        p + unary_tokens(f).len() <= ts.len(),
    decreases f, 0nat,
{
    lemma_predicate_words();
    let x = unary_tokens(f);
    match f {
        FormulaModel::Pred(pred) => {
            lemma_predicate(pred, ts, p);
            lemma_unary_predicate_step(ts, p, f, p + x.len());
        },
        FormulaModel::Not(g) => {
            let a = unary_tokens(*g);
            lemma_split(ts, p, seq![word("not"@)], a);
            lemma_first(ts, p, word("not"@));
            lemma_unary(*g, ts, p + 1);
            lemma_not_step(ts, p, *g, p + 1 + a.len());
        },
        FormulaModel::Implies(a, b) => {
            let x1 = formula_tokens(*a);
            let x2 = formula_tokens(*b);
            assert(x =~= call("implies"@) + (x1 + (comma() + (x2 + closing()))));
            lemma_split(ts, p, call("implies"@), x1 + (comma() + (x2 + closing())));
            lemma_call(ts, p, "implies"@);
            lemma_split(ts, p + 2, x1, comma() + (x2 + closing()));
            let n = p + 2 + x1.len();
            lemma_split(ts, n, comma(), x2 + closing());
            lemma_first(ts, n, TokenModel::Comma);
            lemma_split(ts, n + 1, x2, closing());
            let m = n + 1 + x2.len();
            lemma_first(ts, m, TokenModel::RParen);
            lemma_formula(*a, ts, p + 2);
            lemma_formula(*b, ts, n + 1);
            lemma_implies_step(ts, p, *a, n, *b, m);
            lemma_unary_predicate_step(ts, p, f, m + 1);
        },
        FormulaModel::And(parts) => {
            let a = and_tokens(parts, 0);
            assert(x =~= opening() + (a + closing()));
            lemma_split(ts, p, opening(), a + closing());
            lemma_first(ts, p, TokenModel::LParen);
            lemma_split(ts, p + 1, a, closing());
            let n = p + 1 + a.len();
            lemma_first(ts, n, TokenModel::RParen);
            lemma_and_body(parts, ts, p + 1);
            lemma_or_end(ts, n, f);
            lemma_formula_step(ts, p + 1, f, n, f, n);
            lemma_parentheses_step(ts, p, f, n);
        },
        FormulaModel::Or(parts) => {
            let a = or_tokens(parts, 0);
            assert(x =~= opening() + (a + closing()));
            lemma_split(ts, p, opening(), a + closing());
            lemma_first(ts, p, TokenModel::LParen);
            lemma_split(ts, p + 1, a, closing());
            let n = p + 1 + a.len();
            lemma_first(ts, n, TokenModel::RParen);
            lemma_or_body(parts, ts, p + 1);
            lemma_parentheses_step(ts, p, f, n);
        },
    }
}

proof fn lemma_conjunction(f: FormulaModel, ts: Seq<TokenModel>, p: int)
    requires
        is_spelled(f),
        stands(ts, p, conjunction_tokens(f)),
        token(ts, p + conjunction_tokens(f).len()) != Some(word("and"@)),
    ensures
        reads_conjunction(ts, p, f, p + conjunction_tokens(f).len()),
        conjunction_tokens(f).len() > 0,
    decreases f, 1nat,
{
    match f {
        FormulaModel::And(parts) => {
            lemma_and_body(parts, ts, p);
        },
        _ => {
            lemma_unary(f, ts, p);
            let n = p + unary_tokens(f).len();
            lemma_and_end(ts, n, f);
            lemma_conjunction_step(ts, p, f, n, f, n);
        },
    }
}

proof fn lemma_formula(f: FormulaModel, ts: Seq<TokenModel>, p: int)
    requires
        is_spelled(f),
        stands(ts, p, formula_tokens(f)),
        token(ts, p + formula_tokens(f).len()) != Some(word("and"@)),
        token(ts, p + formula_tokens(f).len()) != Some(word("or"@)),
    ensures
        reads_formula(ts, p, f, p + formula_tokens(f).len()),
        formula_tokens(f).len() > 0,
    decreases f, 2nat,
{
    match f {
        FormulaModel::Or(parts) => {
            lemma_or_body(parts, ts, p);
        },
        _ => {
            lemma_conjunction(f, ts, p);
            let n = p + conjunction_tokens(f).len();
            lemma_or_end(ts, n, f);
            lemma_formula_step(ts, p, f, n, f, n);
        },
    }
}

/// Formulas are read as they are spelled: each predicate by its word, with its arguments in
/// their order; `not` binds closer than `and`, and `and` closer than `or`.
pub proof fn spelled_formulas_are_read(f: FormulaModel)
    requires
        is_spelled(f),
    ensures
        formula_at(formula_tokens(f), 0) == Ok::<(FormulaModel, int), TroubleModel>(
            (f, formula_tokens(f).len() as int),
        ),
{
    let ts = formula_tokens(f);
    lemma_formula(f, ts, 0);
    reveal(reads_formula);
}

/// Different formulas are spelled differently.
pub proof fn spellings_are_told_apart(f: FormulaModel, g: FormulaModel)
    requires
        is_spelled(f),
        is_spelled(g),
        formula_tokens(f) == formula_tokens(g),
    ensures
        f == g,
{
    spelled_formulas_are_read(f);
    spelled_formulas_are_read(g);
}

/// A text whose tokens spell a formula stands for it.
pub proof fn texts_stand_for_what_they_spell(s: Seq<char>, f: FormulaModel)
    requires
        is_spelled(f),
        super::tokens::tokens_of(s) == Ok::<Seq<TokenModel>, TroubleModel>(formula_tokens(f)),
    ensures
        super::parser::formula_reading(s) == Some(Ok::<FormulaModel, ParseErrorModel>(f)),
{
    spelled_formulas_are_read(f);
}

// ─── Tokens ───────────────────────────────────────────────────────────────────

proof fn lemma_word_end(s: Seq<char>, i: int, e: int)
    requires
        0 <= i <= e <= s.len(),
        forall|j: int| i <= j < e ==> text::is_word(#[trigger] s[j]),
        e < s.len() ==> !text::is_word(s[e]),
    ensures
        text::word_end(s, i) == e,
    decreases e - i,
{
    if i < e {
        assert(text::is_word(s[i]));
        lemma_word_end(s, i + 1, e);
    }
}

/// A word is one token, wherever it stands, up to what is no part of words; with brackets behind
/// it, it would be a type.
pub proof fn words_are_tokens(a: Seq<char>, w: Seq<char>, b: Seq<char>)
    requires
        w.len() > 0,
        forall|i: int| 0 <= i < w.len() ==> text::is_word(#[trigger] w[i]),
        !text::is_digit(w[0]),
        b.len() > 0 ==> !text::is_word(b[0]) && b[0] != '<',
    ensures
        token_at(a + w + b, a.len() as int) == Ok::<(TokenModel, int), TroubleModel>(
            (TokenModel::Ident(w), (a.len() + w.len()) as int),
        ),
{
    let s = a + w + b;
    let i = a.len() as int;
    let e = i + w.len();
    assert(s[i] == w[0]);
    assert(text::is_word(w[0]));
    assert forall|j: int| i <= j < e implies text::is_word(#[trigger] s[j]) by {
        assert(s[j] == w[j - i]);
    }
    assert(e < s.len() ==> s[e] == b[0]);
    lemma_word_end(s, i, e);
    assert(s.subrange(i, e) =~= w);
}

/// A reference to a word is one token, with the mark of mutable ones and the blank behind it.
pub proof fn references_are_tokens(a: Seq<char>, w: Seq<char>, b: Seq<char>)
    requires
        w.len() > 0,
        forall|i: int| 0 <= i < w.len() ==> text::is_word(#[trigger] w[i]),
        !text::is_whitespace(w[0]),
        w[0] != '[',
        b.len() > 0 ==> !text::is_word(b[0]) && b[0] != '<',
    ensures
        token_at(a + ("&mut "@ + w) + b, a.len() as int) == Ok::<(TokenModel, int), TroubleModel>(
            (TokenModel::TypeLit("&mut "@ + w), (a.len() + 5 + w.len()) as int),
        ),
{
    reveal_strlit("&mut ");
    reveal_strlit("mut");
    let t = "&mut "@ + w;
    let s = a + t + b;
    let i = a.len() as int;
    let p = i + 5;
    let e = p + w.len();
    assert(s[i] == '&' && s[i + 1] == 'm' && s[i + 2] == 'u' && s[i + 3] == 't' && s[i + 4] == ' ');
    assert(s[p] == w[0]);
    assert(s.subrange(i + 1, i + 4) =~= "mut"@);
    assert(text::spaces_end(s, i + 1) == i + 1);
    assert(text::spaces_end(s, i + 4) == p) by {
        assert(text::spaces_end(s, p) == p);
    }
    assert forall|j: int| p <= j < e implies text::is_word(#[trigger] s[j]) by {
        assert(s[j] == w[j - p]);
    }
    assert(e < s.len() ==> s[e] == b[0]);
    lemma_word_end(s, p, e);
    assert(s.subrange(i, e) =~= t);
}

proof fn lemma_quote(s: Seq<char>, from: int, k: int)
    requires
        0 <= from <= k < s.len(),
        s[k] == '"',
        forall|j: int| from <= j < k ==> #[trigger] s[j] != '"',
    ensures
        text::find_char_from(s, '"', from) == Some(k),
    decreases k - from,
{
    if from < k {
        assert(s[from] != '"');
        lemma_quote(s, from + 1, k);
    }
}

/// A text in quotes is one token, whatever stands in it.
pub proof fn quoted_texts_are_tokens(a: Seq<char>, x: Seq<char>, b: Seq<char>)
    requires
        text::lacks(x, '"'),
    ensures
        token_at(a + seq!['"'] + x + seq!['"'] + b, a.len() as int) == Ok::<
            (TokenModel, int),
            TroubleModel,
        >((TokenModel::StringLit(x), (a.len() + x.len() + 2) as int)),
{
    let s = a + seq!['"'] + x + seq!['"'] + b;
    let i = a.len() as int;
    let k = i + 1 + x.len();
    assert(s[i] == '"');
    assert(s[k] == '"');
    assert forall|j: int| i + 1 <= j < k implies #[trigger] s[j] != '"' by {
        assert(s[j] == x[j - i - 1]);
    }
    lemma_quote(s, i + 1, k);
    assert(s.subrange(i + 1, k) =~= x);
}

proof fn lemma_digits_end(s: Seq<char>, i: int, e: int)
    requires
        0 <= i <= e <= s.len(),
        forall|j: int| i <= j < e ==> text::is_digit(#[trigger] s[j]),
        e < s.len() ==> !text::is_digit(s[e]),
    ensures
        text::digits_end(s, i) == e,
    decreases e - i,
{
    if i < e {
        assert(text::is_digit(s[i]));
        lemma_digits_end(s, i + 1, e);
    }
}

/// A number is one token, with its value.
pub proof fn numbers_are_tokens(a: Seq<char>, n: usize, b: Seq<char>)
    requires
        b.len() > 0 ==> !text::is_digit(b[0]),
    ensures
        token_at(a + text::decimal(n as nat) + b, a.len() as int) == Ok::<
            (TokenModel, int),
            TroubleModel,
        >((TokenModel::Integer(n), (a.len() + text::decimal(n as nat).len()) as int)),
{
    let d = text::decimal(n as nat);
    crate::texts::lemma_decimal(n as nat);
    crate::texts::numbers_are_written_in_digits(n as nat);
    let s = a + d + b;
    let i = a.len() as int;
    let e = i + d.len();
    assert(s[i] == d[0]);
    assert(text::is_digit(d[0]));
    assert forall|j: int| i <= j < e implies text::is_digit(#[trigger] s[j]) by {
        assert(s[j] == d[j - i]);
        assert(text::is_digit(d[j - i]));
    }
    assert(e < s.len() ==> s[e] == b[0]);
    lemma_digits_end(s, i, e);
    assert(s.subrange(i, e) =~= d);
}

/// Parentheses and commas are tokens, and whitespace between tokens is none.
pub proof fn signs_are_tokens(a: Seq<char>, b: Seq<char>, c: char, done: Seq<TokenModel>)
    ensures
        token_at(a + seq!['('] + b, a.len() as int) == Ok::<(TokenModel, int), TroubleModel>(
            (TokenModel::LParen, a.len() as int + 1),
        ),
        token_at(a + seq![')'] + b, a.len() as int) == Ok::<(TokenModel, int), TroubleModel>(
            (TokenModel::RParen, a.len() as int + 1),
        ),
        token_at(a + seq![','] + b, a.len() as int) == Ok::<(TokenModel, int), TroubleModel>(
            (TokenModel::Comma, a.len() as int + 1),
        ),
        text::is_whitespace(c) ==> tokens_from(a + seq![c] + b, a.len() as int, done)
            == tokens_from(a + seq![c] + b, a.len() as int + 1, done),
{
    assert((a + seq!['('] + b)[a.len() as int] == '(');
    assert((a + seq![')'] + b)[a.len() as int] == ')');
    assert((a + seq![','] + b)[a.len() as int] == ',');
    assert((a + seq![c] + b)[a.len() as int] == c);
}

} // verus!

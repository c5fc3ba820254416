//! Reading formulas from tokens.
//!
//! ```text
//! disjunction = conjunction ("or" conjunction)*
//! conjunction = unary ("and" unary)*
//! unary       = "not" unary | atom
//! atom        = "(" disjunction ")" | predicate
//! ```
use vstd::prelude::*;

use super::ast::{
    expr_model_of_lists, formula_model_of_lists, make_trouble, trouble, Formula, FormulaModel,
    ParamRef, ParamRefModel, ParseError, ParseErrorModel, Predicate, PredicateModel, Trouble,
    TroubleModel, TypeExpr, TypeExprModel,
};
use super::tokens::{token_text, tokenize, tokens_of, Token, TokenModel};
use super::type_reader::{
    checked_parse_type_repr_from_str, plain_types_have_readings, type_of, type_reading,
};
use crate::data::{append_item, result_view, Same};
use crate::text;
use crate::types::{TypeRepr, TypeReprModel};

verus! {

// ─── What is read ─────────────────────────────────────────────────────────────

/// The token at a position.
pub open spec fn token(ts: Seq<TokenModel>, at: int) -> Option<TokenModel> {
    if 0 <= at < ts.len() {
        Some(ts[at])
    } else {
        None
    }
}

/// How the token at a position, or the end of the tokens, is shown in an error message.
pub open spec fn found_text(t: Option<TokenModel>) -> Seq<char> {
    match t {
        Some(t) => "Some("@ + token_text(t) + ")"@,
        None => "None"@,
    }
}

/// The error of finding something else than `wanted`.
pub open spec fn unexpected(ts: Seq<TokenModel>, at: int, wanted: Seq<char>) -> TroubleModel {
    let found = match token(ts, at) {
        Some(t) => token_text(t),
        None => "end of input"@,
    };
    trouble("Expected "@ + wanted + ", found "@ + found, at)
}

/// The position behind the token, which must stand at `at`.
pub open spec fn expected(ts: Seq<TokenModel>, at: int, wanted: TokenModel) -> Result<
    int,
    TroubleModel,
> {
    if token(ts, at) == Some(wanted) {
        Ok(at + 1)
    } else {
        Err(unexpected(ts, at, token_text(wanted)))
    }
}

/// What was read, with the token that must follow it read too.
pub open spec fn followed_by<T>(
    read: Result<(T, int), TroubleModel>,
    ts: Seq<TokenModel>,
    wanted: TokenModel,
) -> Result<(T, int), TroubleModel> {
    match read {
        Ok((v, n)) => match expected(ts, n, wanted) {
            Ok(m) => Ok((v, m)),
            Err(e) => Err(e),
        },
        Err(e) => Err(e),
    }
}

pub open spec fn ident_at(ts: Seq<TokenModel>, at: int) -> Result<(Seq<char>, int), TroubleModel> {
    match token(ts, at) {
        Some(TokenModel::Ident(s)) => Ok((s, at + 1)),
        _ => Err(unexpected(ts, at, "identifier"@)),
    }
}

pub open spec fn integer_at(ts: Seq<TokenModel>, at: int) -> Result<(usize, int), TroubleModel> {
    match token(ts, at) {
        Some(TokenModel::Integer(n)) => Ok((n, at + 1)),
        _ => Err(unexpected(ts, at, "integer"@)),
    }
}

/// A pattern: a string, a type or a word.
pub open spec fn pattern_at(ts: Seq<TokenModel>, at: int) -> Result<(Seq<char>, int), TroubleModel> {
    match token(ts, at) {
        Some(TokenModel::StringLit(s)) => Ok((s, at + 1)),
        Some(TokenModel::TypeLit(s)) => Ok((s, at + 1)),
        Some(TokenModel::Ident(s)) => Ok((s, at + 1)),
        other => Err(trouble("Expected string or type pattern, found "@ + found_text(other), at)),
    }
}

/// A parameter, by index or by name.
pub open spec fn param_ref_at(ts: Seq<TokenModel>, at: int) -> Result<
    (ParamRefModel, int),
    TroubleModel,
> {
    match token(ts, at) {
        Some(TokenModel::Integer(n)) => Ok((ParamRefModel::Index(n), at + 1)),
        Some(TokenModel::StringLit(s)) => Ok((ParamRefModel::Name(s), at + 1)),
        Some(TokenModel::Ident(s)) => Ok((ParamRefModel::Name(s), at + 1)),
        other => Err(
            trouble("Expected integer or string in param(), found "@ + found_text(other), at),
        ),
    }
}

/// The value turned into another one, where one was read.
pub open spec fn mapped<T, U>(
    read: Result<(T, int), TroubleModel>,
    f: spec_fn(T) -> U,
) -> Result<(U, int), TroubleModel> {
    match read {
        Ok((v, n)) => Ok((f(v), n)),
        Err(e) => Err(e),
    }
}

/// A type expression that starts at `at`.
pub open spec fn type_expr_at(ts: Seq<TokenModel>, at: int) -> Result<
    (TypeExprModel, int),
    TroubleModel,
>
    decreases ts.len() - at, 1nat,
{
    match token(ts, at) {
        Some(TokenModel::TypeLit(s)) => match type_of(s) {
            Ok(t) => Ok((TypeExprModel::Literal(t), at + 1)),
            Err(e) => Err(e),
        },
        Some(TokenModel::Ident(name)) => if name == "Self"@ {
            Ok((TypeExprModel::Self_, at + 1))
        } else if name == "return"@ {
            Ok((TypeExprModel::Return, at + 1))
        } else if !is_type_function(name) {
            Ok((TypeExprModel::Literal(TypeReprModel::Named(name)), at + 1))
        } else {
            match expected(ts, at + 1, TokenModel::LParen) {
                Ok(p) => followed_by(
                    if name == "field"@ {
                        mapped(ident_at(ts, p), |s: Seq<char>| TypeExprModel::Field(s))
                    } else if name == "param"@ {
                        mapped(param_ref_at(ts, p), |r: ParamRefModel| TypeExprModel::Param(r))
                    } else {
                        match type_expr_at(ts, p) {
                            Ok((first, n)) => if at < n <= ts.len() {
                                type_function_rest(ts, name, first, n)
                            } else {
                                Err(TroubleModel::Stuck)
                            },
                            Err(e) => Err(e),
                        }
                    },
                    ts,
                    TokenModel::RParen,
                ),
                Err(e) => Err(e),
            }
        },
        other => Err(trouble("Expected type expression, found "@ + found_text(other), at)),
    }
}

/// The names that take arguments in parentheses.
pub open spec fn is_type_function(name: Seq<char>) -> bool {
    ||| name == "field"@
    ||| name == "param"@
    ||| name == "con"@
    ||| name == "arg"@
    ||| name == "apply"@
    ||| name == "function"@
    ||| name == "domain"@
    ||| name == "codomain"@
    ||| name == "sum"@
    ||| name == "product"@
}

/// What follows the first type expression among the arguments of a type function.
pub open spec fn type_function_rest(
    ts: Seq<TokenModel>,
    name: Seq<char>,
    first: TypeExprModel,
    at: int,
) -> Result<(TypeExprModel, int), TroubleModel>
    decreases ts.len() - at, 2nat,
{
    if name == "con"@ {
        Ok((TypeExprModel::Con(Box::new(first)), at))
    } else if name == "arg"@ {
        match expected(ts, at, TokenModel::Comma) {
            Ok(p) => mapped(integer_at(ts, p), |n: usize| TypeExprModel::Arg(Box::new(first), n)),
            Err(e) => Err(e),
        }
    } else if name == "apply"@ {
        mapped(
            type_exprs_from(ts, at, Seq::empty()),
            |args: Seq<TypeExprModel>| TypeExprModel::Apply(Box::new(first), args),
        )
    } else if name == "domain"@ {
        if token(ts, at) == Some(TokenModel::Comma) {
            mapped(
                integer_at(ts, at + 1),
                |n: usize| TypeExprModel::Domain(Box::new(first), Some(n)),
            )
        } else {
            Ok((TypeExprModel::Domain(Box::new(first), None), at))
        }
    } else if name == "codomain"@ {
        Ok((TypeExprModel::Codomain(Box::new(first)), at))
    } else if name == "function"@ {
        mapped(
            type_exprs_from(ts, at, seq![first]),
            |types: Seq<TypeExprModel>| TypeExprModel::Function(types),
        )
    } else if name == "sum"@ {
        mapped(
            type_exprs_from(ts, at, seq![first]),
            |types: Seq<TypeExprModel>| TypeExprModel::Sum(types),
        )
    } else {
        mapped(
            type_exprs_from(ts, at, seq![first]),
            |types: Seq<TypeExprModel>| TypeExprModel::Product(types),
        )
    }
}

/// The type expressions that follow, each behind a comma, put behind those that are done.
pub open spec fn type_exprs_from(ts: Seq<TokenModel>, at: int, done: Seq<TypeExprModel>) -> Result<
    (Seq<TypeExprModel>, int),
    TroubleModel,
>
    decreases ts.len() - at, 0nat,
{
    if token(ts, at) == Some(TokenModel::Comma) {
        match type_expr_at(ts, at + 1) {
            Ok((e, n)) => if at < n <= ts.len() {
                type_exprs_from(ts, n, done.push(e))
            } else {
                Err(TroubleModel::Stuck)
            },
            Err(e) => Err(e),
        }
    } else {
        Ok((done, at))
    }
}

/// A disjunction with one part more.
pub open spec fn with_or(left: FormulaModel, right: FormulaModel) -> FormulaModel {
    match left {
        FormulaModel::Or(parts) => FormulaModel::Or(parts.push(right)),
        _ => FormulaModel::Or(seq![left, right]),
    }
}

/// A conjunction with one part more.
pub open spec fn with_and(left: FormulaModel, right: FormulaModel) -> FormulaModel {
    match left {
        FormulaModel::And(parts) => FormulaModel::And(parts.push(right)),
        _ => FormulaModel::And(seq![left, right]),
    }
}

pub open spec fn word_at(ts: Seq<TokenModel>, at: int, word: Seq<char>) -> bool {
    token(ts, at) == Some(TokenModel::Ident(word))
}

/// A formula that starts at `at`.
pub open spec fn formula_at(ts: Seq<TokenModel>, at: int) -> Result<
    (FormulaModel, int),
    TroubleModel,
>
    decreases ts.len() - at, 4nat,
{
    match conjunction_at(ts, at) {
        Ok((left, n)) => if at < n <= ts.len() {
            or_rest(ts, n, left)
        } else {
            Err(TroubleModel::Stuck)
        },
        Err(e) => Err(e),
    }
}

pub open spec fn or_rest(ts: Seq<TokenModel>, at: int, left: FormulaModel) -> Result<
    (FormulaModel, int),
    TroubleModel,
>
    decreases ts.len() - at, 0nat,
{
    if word_at(ts, at, "or"@) {
        match conjunction_at(ts, at + 1) {
            Ok((right, n)) => if at < n <= ts.len() {
                or_rest(ts, n, with_or(left, right))
            } else {
                Err(TroubleModel::Stuck)
            },
            Err(e) => Err(e),
        }
    } else {
        Ok((left, at))
    }
}

pub open spec fn conjunction_at(ts: Seq<TokenModel>, at: int) -> Result<
    (FormulaModel, int),
    TroubleModel,
>
    decreases ts.len() - at, 3nat,
{
    match unary_at(ts, at) {
        Ok((left, n)) => if at < n <= ts.len() {
            and_rest(ts, n, left)
        } else {
            Err(TroubleModel::Stuck)
        },
        Err(e) => Err(e),
    }
}

pub open spec fn and_rest(ts: Seq<TokenModel>, at: int, left: FormulaModel) -> Result<
    (FormulaModel, int),
    TroubleModel,
>
    decreases ts.len() - at, 0nat,
{
    if word_at(ts, at, "and"@) {
        match unary_at(ts, at + 1) {
            Ok((right, n)) => if at < n <= ts.len() {
                and_rest(ts, n, with_and(left, right))
            } else {
                Err(TroubleModel::Stuck)
            },
            Err(e) => Err(e),
        }
    } else {
        Ok((left, at))
    }
}

pub open spec fn unary_at(ts: Seq<TokenModel>, at: int) -> Result<(FormulaModel, int), TroubleModel>
    decreases ts.len() - at, 2nat,
{
    if word_at(ts, at, "not"@) {
        mapped(unary_at(ts, at + 1), |f: FormulaModel| FormulaModel::Not(Box::new(f)))
    } else if token(ts, at) == Some(TokenModel::LParen) {
        followed_by(formula_at(ts, at + 1), ts, TokenModel::RParen)
    } else {
        predicate_at(ts, at)
    }
}

/// The predicates on one type, which is `Self` where none is given.
pub open spec fn unary_predicate(name: Seq<char>, t: TypeExprModel) -> Option<PredicateModel> {
    if name == "is_sum"@ {
        Some(PredicateModel::IsSum(t))
    } else if name == "is_product"@ {
        Some(PredicateModel::IsProduct(t))
    } else if name == "is_function"@ {
        Some(PredicateModel::IsFunction(t))
    } else if name == "cloneable"@ {
        Some(PredicateModel::Cloneable(t))
    } else if name == "serializable"@ {
        Some(PredicateModel::Serializable(t))
    } else if name == "send"@ {
        Some(PredicateModel::Send(t))
    } else if name == "sync"@ {
        Some(PredicateModel::Sync(t))
    } else if name == "fallible"@ {
        Some(PredicateModel::Fallible(t))
    } else if name == "no_unsafe"@ {
        Some(PredicateModel::NoUnsafe(t))
    } else {
        None
    }
}

/// The predicates on a type and a name.
pub open spec fn named_predicate(name: Seq<char>, t: TypeExprModel, of: Seq<char>) -> Option<
    PredicateModel,
> {
    if name == "is_subtype"@ {
        Some(PredicateModel::IsSubtype(t, of))
    } else if name == "has_field"@ {
        Some(PredicateModel::HasField(t, of))
    } else if name == "has_method"@ {
        Some(PredicateModel::HasMethod(t, of))
    } else if name == "has_variant"@ {
        Some(PredicateModel::HasVariant(t, of))
    } else {
        None
    }
}

/// `( T ,` behind a predicate's name.
pub open spec fn first_argument_at(ts: Seq<TokenModel>, at: int) -> Result<
    (TypeExprModel, int),
    TroubleModel,
> {
    match expected(ts, at, TokenModel::LParen) {
        Ok(p) => followed_by(type_expr_at(ts, p), ts, TokenModel::Comma),
        Err(e) => Err(e),
    }
}

/// The optional argument of a predicate on one type.
pub open spec fn optional_argument_at(ts: Seq<TokenModel>, at: int) -> Result<
    (TypeExprModel, int),
    TroubleModel,
> {
    if token(ts, at) == Some(TokenModel::LParen) {
        followed_by(type_expr_at(ts, at + 1), ts, TokenModel::RParen)
    } else {
        Ok((TypeExprModel::Self_, at))
    }
}

pub open spec fn predicate_at(ts: Seq<TokenModel>, at: int) -> Result<
    (FormulaModel, int),
    TroubleModel,
>
    decreases ts.len() - at, 1nat,
{
    match token(ts, at) {
        Some(TokenModel::Ident(name)) => if name == "equals"@ {
            match first_argument_at(ts, at + 1) {
                Ok((a, p)) => mapped(
                    followed_by(type_expr_at(ts, p), ts, TokenModel::RParen),
                    |b: TypeExprModel| FormulaModel::Pred(PredicateModel::Equals(a, b)),
                ),
                Err(e) => Err(e),
            }
        } else if name == "matches"@ {
            match first_argument_at(ts, at + 1) {
                Ok((t, p)) => mapped(
                    followed_by(pattern_at(ts, p), ts, TokenModel::RParen),
                    |s: Seq<char>| FormulaModel::Pred(PredicateModel::Matches(t, s)),
                ),
                Err(e) => Err(e),
            }
        } else if named_predicate(name, TypeExprModel::Self_, Seq::empty()) is Some {
            match first_argument_at(ts, at + 1) {
                Ok((t, p)) => mapped(
                    followed_by(ident_at(ts, p), ts, TokenModel::RParen),
                    |s: Seq<char>| FormulaModel::Pred(named_predicate(name, t, s)->0),
                ),
                Err(e) => Err(e),
            }
        } else if unary_predicate(name, TypeExprModel::Self_) is Some {
            mapped(
                optional_argument_at(ts, at + 1),
                |t: TypeExprModel| FormulaModel::Pred(unary_predicate(name, t)->0),
            )
        } else if name == "implies"@ {
            match expected(ts, at + 1, TokenModel::LParen) {
                Ok(p) => match followed_by(formula_at(ts, p), ts, TokenModel::Comma) {
                    Ok((premise, q)) => if at < q <= ts.len() {
                        mapped(
                            followed_by(formula_at(ts, q), ts, TokenModel::RParen),
                            |conclusion: FormulaModel|
                                FormulaModel::Implies(Box::new(premise), Box::new(conclusion)),
                        )
                    } else {
                        Err(TroubleModel::Stuck)
                    },
                    Err(e) => Err(e),
                },
                Err(e) => Err(e),
            }
        } else {
            Err(trouble("Unknown predicate: '"@ + name + "'"@, at))
        },
        other => Err(trouble("Expected predicate name, found "@ + found_text(other), at)),
    }
}

/// The formula that a text stands for.
pub open spec fn formula_of(text: Seq<char>) -> Result<FormulaModel, TroubleModel> {
    match tokens_of(text) {
        Ok(ts) => match formula_at(ts, 0) {
            Ok((f, n)) => if n < ts.len() {
                Err(trouble("Unexpected token: "@ + token_text(ts[n]), n))
            } else {
                Ok(f)
            },
            Err(e) => Err(e),
        },
        Err(e) => Err(e),
    }
}

/// What reading a formula ends in, without the texts of which there is no reading.
pub open spec fn formula_reading(text: Seq<char>) -> Option<Result<FormulaModel, ParseErrorModel>> {
    match formula_of(text) {
        Ok(f) => Some(Ok(f)),
        Err(TroubleModel::Error(e)) => Some(Err(e)),
        Err(TroubleModel::Stuck) => None,
    }
}

// ─── Reading ──────────────────────────────────────────────────────────────────

/// What was read and where it ended, seen by contents.
pub open spec fn step_view<T: DeepView>(r: Result<(T, usize), Trouble>) -> Result<
    (T::V, int),
    TroubleModel,
> {
    match r {
        Ok((v, n)) => Ok((v.deep_view(), n as int)),
        Err(e) => Err(e.deep_view()),
    }
}

/// Whether a reading that ended did so behind `at`, within the tokens.
pub open spec fn ahead<T>(r: Result<(T, usize), Trouble>, at: int, tokens: Seq<Token>) -> bool {
    match r {
        Ok((_, n)) => at < n <= tokens.len(),
        Err(e) => readable(e, tokens),
    }
}

/// Whether every type among the tokens has a reading.
#[verifier::opaque]
pub open spec fn types_readable(tokens: Seq<Token>) -> bool {
    forall|i: int|
        0 <= i < tokens.len() ==> (#[trigger] tokens[i] matches Token::TypeLit(s) ==> type_reading(
            s@,
        ) is Some)
}

/// Where every type has a reading, the tokens have one.
pub open spec fn readable(e: Trouble, tokens: Seq<Token>) -> bool {
    e is Stuck ==> !types_readable(tokens)
}

fn is_word(tokens: &Vec<Token>, at: usize, word: &str) -> (b: bool)
    ensures
        b == word_at(tokens.deep_view(), at as int, word@),
        b ==> at < tokens@.len() && at < usize::MAX,
{
    if at < tokens.len() {
        assert(tokens.deep_view()[at as int] == tokens@[at as int].deep_view());
        match &tokens[at] {
            Token::Ident(s) => text::same(s.as_str(), word),
            _ => false,
        }
    } else {
        false
    }
}

fn is_token(tokens: &Vec<Token>, at: usize, wanted: &Token) -> (b: bool)
    ensures
        b == (token(tokens.deep_view(), at as int) == Some(wanted.deep_view())),
        b ==> at < tokens@.len() && at < usize::MAX,
{
    if at < tokens.len() {
        assert(tokens.deep_view()[at as int] == tokens@[at as int].deep_view());
        tokens[at].same(wanted)
    } else {
        false
    }
}

fn show_found(tokens: &Vec<Token>, at: usize) -> (r: String)
    ensures
        r@ == found_text(token(tokens.deep_view(), at as int)),
{
    if at < tokens.len() {
        assert(tokens.deep_view()[at as int] == tokens@[at as int].deep_view());
        let mut out = "Some(".to_owned();
        out.append(tokens[at].to_debug_string().as_str());
        out.append(")");
        out
    } else {
        "None".to_owned()
    }
}

fn make_unexpected(tokens: &Vec<Token>, at: usize, wanted: &str) -> (r: Trouble)
    ensures
        r.deep_view() == unexpected(tokens.deep_view(), at as int, wanted@),
{
    let mut message = "Expected ".to_owned();
    message.append(wanted);
    message.append(", found ");
    if at < tokens.len() {
        assert(tokens.deep_view()[at as int] == tokens@[at as int].deep_view());
        message.append(tokens[at].to_debug_string().as_str());
    } else {
        message.append("end of input");
    }
    make_trouble(message, at)
}

fn not_found(wanted: &str, tokens: &Vec<Token>, at: usize) -> (r: Trouble)
    ensures
        r.deep_view() == trouble(wanted@ + found_text(token(tokens.deep_view(), at as int)), at as int),
{
    let mut message = wanted.to_owned();
    message.append(show_found(tokens, at).as_str());
    make_trouble(message, at)
}

fn expect(tokens: &Vec<Token>, at: usize, wanted: &Token) -> (r: Result<usize, Trouble>)
    ensures
        match r {
            Ok(n) => expected(tokens.deep_view(), at as int, wanted.deep_view()) == Ok::<
                int,
                TroubleModel,
            >(n as int) && n == at + 1 && n <= tokens@.len(),
            Err(e) => expected(tokens.deep_view(), at as int, wanted.deep_view()) == Err::<
                int,
                TroubleModel,
            >(e.deep_view()) && readable(e, tokens@),
        },
{
    if is_token(tokens, at, wanted) {
        Ok(at + 1)
    } else {
        Err(make_unexpected(tokens, at, wanted.to_debug_string().as_str()))
    }
}

fn expect_ident(tokens: &Vec<Token>, at: usize) -> (r: Result<(String, usize), Trouble>)
    ensures
        step_view(r) == ident_at(tokens.deep_view(), at as int),
        ahead(r, at as int, tokens@),
{
    if at < tokens.len() {
        assert(tokens.deep_view()[at as int] == tokens@[at as int].deep_view());
        match &tokens[at] {
            Token::Ident(s) => {
                return Ok((s.clone(), at + 1));
            },
            _ => {},
        }
    }
    Err(make_unexpected(tokens, at, "identifier"))
}

fn expect_integer(tokens: &Vec<Token>, at: usize) -> (r: Result<(usize, usize), Trouble>)
    ensures
        step_view(r) == integer_at(tokens.deep_view(), at as int),
        ahead(r, at as int, tokens@),
{
    if at < tokens.len() {
        assert(tokens.deep_view()[at as int] == tokens@[at as int].deep_view());
        match &tokens[at] {
            Token::Integer(n) => {
                return Ok((*n, at + 1));
            },
            _ => {},
        }
    }
    Err(make_unexpected(tokens, at, "integer"))
}

fn parse_string_or_type_lit(tokens: &Vec<Token>, at: usize) -> (r: Result<(String, usize), Trouble>)
    ensures
        step_view(r) == pattern_at(tokens.deep_view(), at as int),
        ahead(r, at as int, tokens@),
{
    if at < tokens.len() {
        assert(tokens.deep_view()[at as int] == tokens@[at as int].deep_view());
        match &tokens[at] {
            Token::StringLit(s) => {
                return Ok((s.clone(), at + 1));
            },
            Token::TypeLit(s) => {
                return Ok((s.clone(), at + 1));
            },
            Token::Ident(s) => {
                return Ok((s.clone(), at + 1));
            },
            _ => {},
        }
    }
    Err(not_found("Expected string or type pattern, found ", tokens, at))
}

fn parse_param_ref(tokens: &Vec<Token>, at: usize) -> (r: Result<(ParamRef, usize), Trouble>)
    ensures
        step_view(r) == param_ref_at(tokens.deep_view(), at as int),
        ahead(r, at as int, tokens@),
{
    if at < tokens.len() {
        assert(tokens.deep_view()[at as int] == tokens@[at as int].deep_view());
        match &tokens[at] {
            Token::Integer(n) => {
                return Ok((ParamRef::Index(*n), at + 1));
            },
            Token::StringLit(s) => {
                return Ok((ParamRef::Name(s.clone()), at + 1));
            },
            Token::Ident(s) => {
                return Ok((ParamRef::Name(s.clone()), at + 1));
            },
            _ => {},
        }
    }
    Err(not_found("Expected integer or string in param(), found ", tokens, at))
}

fn takes_arguments(name: &str) -> (b: bool)
    ensures
        b == is_type_function(name@),
{
    text::same(name, "field") || text::same(name, "param") || text::same(name, "con") || text::same(
        name,
        "arg",
    ) || text::same(name, "apply") || text::same(name, "function") || text::same(name, "domain")
        || text::same(name, "codomain") || text::same(name, "sum") || text::same(name, "product")
}

/// Reads a type expression.
fn parse_type_expr(tokens: &Vec<Token>, at: usize) -> (r: Result<(TypeExpr, usize), Trouble>)
    requires
        at <= tokens@.len(),
    ensures
        step_view(r) == type_expr_at(tokens.deep_view(), at as int),
        ahead(r, at as int, tokens@),
    decreases tokens@.len() - at, 1nat,
{
    if at >= tokens.len() {
        return Err(not_found("Expected type expression, found ", tokens, at));
    }
    assert(tokens.deep_view()[at as int] == tokens@[at as int].deep_view());
    match &tokens[at] {
        Token::TypeLit(s) => match checked_parse_type_repr_from_str(s.as_str()) {
            Some(Ok(t)) => Ok((TypeExpr::Literal(t), at + 1)),
            Some(Err(e)) => Err(Trouble::Error(e)),
            None => {
                proof {
                    reveal(types_readable);
                    assert(tokens@[at as int] matches Token::TypeLit(t) && type_reading(t@) is None);
                }
                Err(Trouble::Stuck)
            },
        },
        Token::Ident(s) => {
            let name = s.as_str();
            if text::same(name, "Self") {
                return Ok((TypeExpr::Self_, at + 1));
            }
            if text::same(name, "return") {
                return Ok((TypeExpr::Return, at + 1));
            }
            if !takes_arguments(name) {
                return Ok((TypeExpr::Literal(TypeRepr::Named(s.clone())), at + 1));
            }
            let p = expect(tokens, at + 1, &Token::LParen)?;
            let (e, n): (TypeExpr, usize) = if text::same(name, "field") {
                let (field, n) = expect_ident(tokens, p)?;
                (TypeExpr::Field(field), n)
            } else if text::same(name, "param") {
                let (param, n) = parse_param_ref(tokens, p)?;
                (TypeExpr::Param(param), n)
            } else {
                let (first, q) = parse_type_expr(tokens, p)?;
                parse_type_function(tokens, name, first, q)?
            };
            let m = expect(tokens, n, &Token::RParen)?;
            Ok((e, m))
        },
        _ => Err(not_found("Expected type expression, found ", tokens, at)),
    }
}

fn parse_type_function(tokens: &Vec<Token>, name: &str, first: TypeExpr, at: usize) -> (r: Result<
    (TypeExpr, usize),
    Trouble,
>)
    requires
        at <= tokens@.len(),
    ensures
        step_view(r) == type_function_rest(tokens.deep_view(), name@, first.deep_view(), at as int),
        r matches Ok((_, n)) ==> at <= n <= tokens@.len(),
        r matches Err(e) ==> readable(e, tokens@),
    decreases tokens@.len() - at, 2nat,
{
    if text::same(name, "con") {
        Ok((TypeExpr::Con(Box::new(first)), at))
    } else if text::same(name, "arg") {
        let p = expect(tokens, at, &Token::Comma)?;
        let (n, q) = expect_integer(tokens, p)?;
        Ok((TypeExpr::Arg(Box::new(first), n), q))
    } else if text::same(name, "apply") {
        let none: Vec<TypeExpr> = Vec::new();
        assert(none.deep_view() =~= Seq::empty());
        let (args, q) = parse_type_exprs(tokens, at, none)?;
        let e = TypeExpr::Apply(Box::new(first), args);
        proof {
            expr_model_of_lists(e);
        }
        Ok((e, q))
    } else if text::same(name, "domain") {
        if is_token(tokens, at, &Token::Comma) {
            let (n, q) = expect_integer(tokens, at + 1)?;
            Ok((TypeExpr::Domain(Box::new(first), Some(n)), q))
        } else {
            Ok((TypeExpr::Domain(Box::new(first), None), at))
        }
    } else if text::same(name, "codomain") {
        Ok((TypeExpr::Codomain(Box::new(first)), at))
    } else {
        let mut one: Vec<TypeExpr> = Vec::new();
        let ghost model = first.deep_view();
        one.push(first);
        assert(one.deep_view() =~= seq![model]);
        let (types, q) = parse_type_exprs(tokens, at, one)?;
        let e = if text::same(name, "function") {
            TypeExpr::Function(types)
        } else if text::same(name, "sum") {
            TypeExpr::Sum(types)
        } else {
            TypeExpr::Product(types)
        };
        proof {
            expr_model_of_lists(e);
        }
        Ok((e, q))
    }
}

fn parse_type_exprs(tokens: &Vec<Token>, from: usize, done: Vec<TypeExpr>) -> (r: Result<
    (Vec<TypeExpr>, usize),
    Trouble,
>)
    requires
        from <= tokens@.len(),
    ensures
        step_view(r) == type_exprs_from(tokens.deep_view(), from as int, done.deep_view()),
        r matches Ok((_, n)) ==> from <= n <= tokens@.len(),
        r matches Err(e) ==> readable(e, tokens@),
    decreases tokens@.len() - from, 0nat,
{
    let mut exprs = done;
    let mut at: usize = from;
    let ghost ts = tokens.deep_view();
    while is_token(tokens, at, &Token::Comma)
        invariant
            from <= at <= tokens@.len(),
            ts == tokens.deep_view(),
            type_exprs_from(ts, from as int, done.deep_view()) == type_exprs_from(
                ts,
                at as int,
                exprs.deep_view(),
            ),
        decreases tokens@.len() - at,
    {
        let (e, n) = parse_type_expr(tokens, at + 1)?;
        append_item(&mut exprs, e);
        at = n;
    }
    Ok((exprs, at))
}

fn add_or(left: Formula, right: Formula) -> (r: Formula)
    ensures
        r.deep_view() == with_or(left.deep_view(), right.deep_view()),
{
    proof {
        formula_model_of_lists(left);
    }
    let r = match left {
        Formula::Or(parts) => {
            let mut parts = parts;
            append_item(&mut parts, right);
            Formula::Or(parts)
        },
        _ => {
            let mut parts: Vec<Formula> = Vec::new();
            let ghost models = seq![left.deep_view(), right.deep_view()];
            parts.push(left);
            parts.push(right);
            assert(parts.deep_view() =~= models);
            Formula::Or(parts)
        },
    };
    proof {
        formula_model_of_lists(r);
    }
    r
}

fn add_and(left: Formula, right: Formula) -> (r: Formula)
    ensures
        r.deep_view() == with_and(left.deep_view(), right.deep_view()),
{
    proof {
        formula_model_of_lists(left);
    }
    let r = match left {
        Formula::And(parts) => {
            let mut parts = parts;
            append_item(&mut parts, right);
            Formula::And(parts)
        },
        _ => {
            let mut parts: Vec<Formula> = Vec::new();
            let ghost models = seq![left.deep_view(), right.deep_view()];
            parts.push(left);
            parts.push(right);
            assert(parts.deep_view() =~= models);
            Formula::And(parts)
        },
    };
    proof {
        formula_model_of_lists(r);
    }
    r
}

fn parse_disjunction(tokens: &Vec<Token>, at: usize) -> (r: Result<(Formula, usize), Trouble>)
    requires
        at <= tokens@.len(),
    ensures
        step_view(r) == formula_at(tokens.deep_view(), at as int),
        ahead(r, at as int, tokens@),
    decreases tokens@.len() - at, 4nat,
{
    let ghost ts = tokens.deep_view();
    let (first, n) = parse_conjunction(tokens, at)?;
    let mut left = first;
    let mut next: usize = n;
    while is_word(tokens, next, "or")
        invariant
            at < next <= tokens@.len(),
            ts == tokens.deep_view(),
            formula_at(ts, at as int) == or_rest(ts, next as int, left.deep_view()),
        decreases tokens@.len() - next,
    {
        let (right, m) = parse_conjunction(tokens, next + 1)?;
        left = add_or(left, right);
        next = m;
    }
    Ok((left, next))
}

fn parse_conjunction(tokens: &Vec<Token>, at: usize) -> (r: Result<(Formula, usize), Trouble>)
    requires
        at <= tokens@.len(),
    ensures
        step_view(r) == conjunction_at(tokens.deep_view(), at as int),
        ahead(r, at as int, tokens@),
    decreases tokens@.len() - at, 3nat,
{
    let ghost ts = tokens.deep_view();
    let (first, n) = parse_unary(tokens, at)?;
    let mut left = first;
    let mut next: usize = n;
    while is_word(tokens, next, "and")
        invariant
            at < next <= tokens@.len(),
            ts == tokens.deep_view(),
            conjunction_at(ts, at as int) == and_rest(ts, next as int, left.deep_view()),
        decreases tokens@.len() - next,
    {
        let (right, m) = parse_unary(tokens, next + 1)?;
        left = add_and(left, right);
        next = m;
    }
    Ok((left, next))
}

fn parse_unary(tokens: &Vec<Token>, at: usize) -> (r: Result<(Formula, usize), Trouble>)
    requires
        at <= tokens@.len(),
    ensures
        step_view(r) == unary_at(tokens.deep_view(), at as int),
        ahead(r, at as int, tokens@),
    decreases tokens@.len() - at, 2nat,
{
    if is_word(tokens, at, "not") {
        let (inner, n) = parse_unary(tokens, at + 1)?;
        Ok((Formula::Not(Box::new(inner)), n))
    } else if is_token(tokens, at, &Token::LParen) {
        let (f, n) = parse_disjunction(tokens, at + 1)?;
        let m = expect(tokens, n, &Token::RParen)?;
        Ok((f, m))
    } else {
        parse_predicate(tokens, at)
    }
}

fn parse_first_argument(tokens: &Vec<Token>, at: usize) -> (r: Result<(TypeExpr, usize), Trouble>)
    requires
        at <= tokens@.len(),
    ensures
        step_view(r) == first_argument_at(tokens.deep_view(), at as int),
        ahead(r, at as int, tokens@),
{
    let p = expect(tokens, at, &Token::LParen)?;
    let (t, n) = parse_type_expr(tokens, p)?;
    let m = expect(tokens, n, &Token::Comma)?;
    Ok((t, m))
}

fn parse_optional_argument(tokens: &Vec<Token>, at: usize) -> (r: Result<
    (TypeExpr, usize),
    Trouble,
>)
    requires
        at <= tokens@.len(),
    ensures
        step_view(r) == optional_argument_at(tokens.deep_view(), at as int),
        r matches Ok((_, n)) ==> at <= n <= tokens@.len(),
        r matches Err(e) ==> readable(e, tokens@),
{
    if is_token(tokens, at, &Token::LParen) {
        let (t, n) = parse_type_expr(tokens, at + 1)?;
        let m = expect(tokens, n, &Token::RParen)?;
        Ok((t, m))
    } else {
        Ok((TypeExpr::Self_, at))
    }
}

fn make_unary_predicate(name: &str, t: TypeExpr) -> (r: Option<Predicate>)
    ensures
        r.deep_view() == unary_predicate(name@, t.deep_view()),
{
    if text::same(name, "is_sum") {
        Some(Predicate::IsSum(t))
    } else if text::same(name, "is_product") {
        Some(Predicate::IsProduct(t))
    } else if text::same(name, "is_function") {
        Some(Predicate::IsFunction(t))
    } else if text::same(name, "cloneable") {
        Some(Predicate::Cloneable(t))
    } else if text::same(name, "serializable") {
        Some(Predicate::Serializable(t))
    } else if text::same(name, "send") {
        Some(Predicate::Send(t))
    } else if text::same(name, "sync") {
        Some(Predicate::Sync(t))
    } else if text::same(name, "fallible") {
        Some(Predicate::Fallible(t))
    } else if text::same(name, "no_unsafe") {
        Some(Predicate::NoUnsafe(t))
    } else {
        None
    }
}

fn make_named_predicate(name: &str, t: TypeExpr, of: String) -> (r: Option<Predicate>)
    ensures
        r.deep_view() == named_predicate(name@, t.deep_view(), of@),
{
    if text::same(name, "is_subtype") {
        Some(Predicate::IsSubtype(t, of))
    } else if text::same(name, "has_field") {
        Some(Predicate::HasField(t, of))
    } else if text::same(name, "has_method") {
        Some(Predicate::HasMethod(t, of))
    } else if text::same(name, "has_variant") {
        Some(Predicate::HasVariant(t, of))
    } else {
        None
    }
}

/// Reads a predicate, with its arguments.
fn parse_predicate(tokens: &Vec<Token>, at: usize) -> (r: Result<(Formula, usize), Trouble>)
    requires
        at <= tokens@.len(),
    ensures
        step_view(r) == predicate_at(tokens.deep_view(), at as int),
        ahead(r, at as int, tokens@),
    decreases tokens@.len() - at, 1nat,
{
    if at >= tokens.len() {
        return Err(not_found("Expected predicate name, found ", tokens, at));
    }
    assert(tokens.deep_view()[at as int] == tokens@[at as int].deep_view());
    let name = match &tokens[at] {
        Token::Ident(s) => s.as_str(),
        _ => {
            return Err(not_found("Expected predicate name, found ", tokens, at));
        },
    };
    if text::same(name, "equals") {
        let (a, p) = parse_first_argument(tokens, at + 1)?;
        let (b, n) = parse_type_expr(tokens, p)?;
        let m = expect(tokens, n, &Token::RParen)?;
        return Ok((Formula::Pred(Predicate::Equals(a, b)), m));
    }
    if text::same(name, "matches") {
        let (t, p) = parse_first_argument(tokens, at + 1)?;
        let (pattern, n) = parse_string_or_type_lit(tokens, p)?;
        let m = expect(tokens, n, &Token::RParen)?;
        return Ok((Formula::Pred(Predicate::Matches(t, pattern)), m));
    }
    if make_named_predicate(name, TypeExpr::Self_, String::new()).is_some() {
        let (t, p) = parse_first_argument(tokens, at + 1)?;
        let (of, n) = expect_ident(tokens, p)?;
        let m = expect(tokens, n, &Token::RParen)?;
        if let Some(pred) = make_named_predicate(name, t, of) {
            return Ok((Formula::Pred(pred), m));
        }
    }
    if make_unary_predicate(name, TypeExpr::Self_).is_some() {
        let (t, n) = parse_optional_argument(tokens, at + 1)?;
        if let Some(pred) = make_unary_predicate(name, t) {
            return Ok((Formula::Pred(pred), n));
        }
    }
    if text::same(name, "implies") {
        let p = expect(tokens, at + 1, &Token::LParen)?;
        let (premise, n) = parse_disjunction(tokens, p)?;
        let q = expect(tokens, n, &Token::Comma)?;
        let (conclusion, m) = parse_disjunction(tokens, q)?;
        let end = expect(tokens, m, &Token::RParen)?;
        return Ok((Formula::Implies(Box::new(premise), Box::new(conclusion)), end));
    }
    let mut message = "Unknown predicate: '".to_owned();
    message.append(name);
    message.append("'");
    Err(make_trouble(message, at))
}

fn read_formula(input: &str) -> (r: Result<Formula, Trouble>)
    ensures
        result_view(r) == formula_of(input@),
        r matches Err(e) ==> e is Stuck ==> !text::lacks(input@, '<'),
{
    let tokens = tokenize(input)?;
    proof {
        reveal(types_readable);
        assert(text::lacks(input@, '<') ==> types_readable(tokens@)) by {
            if text::lacks(input@, '<') {
                assert forall|i: int| 0 <= i < tokens@.len() implies (
                #[trigger] tokens@[i] matches Token::TypeLit(s) ==> type_reading(s@) is Some) by {
                    assert(tokens.deep_view()[i] == tokens@[i].deep_view());
                    match tokens@[i] {
                        Token::TypeLit(s) => {
                            plain_types_have_readings(s@);
                        },
                        _ => {},
                    }
                }
            }
        }
    }
    let (f, n) = parse_disjunction(&tokens, 0)?;
    if n < tokens.len() {
        assert(tokens.deep_view()[n as int] == tokens@[n as int].deep_view());
        let mut message = "Unexpected token: ".to_owned();
        message.append(tokens[n].to_debug_string().as_str());
        return Err(make_trouble(message, n));
    }
    Ok(f)
}

/// Reads a formula, or says that the text has no reading: it holds a type with a bracket
/// that leaves nothing between itself and the end.
pub fn checked_parse_formula(input: &str) -> (r: Option<Result<Formula, ParseError>>)
    ensures
        match r {
            Some(read) => formula_reading(input@) == Some(result_view(read)),
            None => formula_reading(input@) is None && !text::lacks(input@, '<'),
        },
{
    match read_formula(input) {
        Ok(f) => Some(Ok(f)),
        Err(Trouble::Error(e)) => Some(Err(e)),
        Err(Trouble::Stuck) => None,
    }
}

/// Reads a formula. Every text without a `<` has a reading.
pub fn parse_formula(input: &str) -> (r: Result<Formula, ParseError>)
    requires
        text::lacks(input@, '<') || formula_reading(input@) is Some,
    ensures
        formula_reading(input@) == Some(result_view(r)),
{
    match checked_parse_formula(input) {
        Some(r) => r,
        None => Ok(Formula::And(Vec::new())),
    }
}

// ─── Laws ─────────────────────────────────────────────────────────────────────

/// A predicate of one type without an argument is about `Self`.
pub proof fn arguments_default_to_self(name: Seq<char>)
    requires
        unary_predicate(name, TypeExprModel::Self_) is Some,
        name != "equals"@,
        name != "matches"@,
        named_predicate(name, TypeExprModel::Self_, Seq::empty()) is None,
    ensures
        ({
            let bare = seq![TokenModel::Ident(name)];
            let full = seq![
                TokenModel::Ident(name),
                TokenModel::LParen,
                TokenModel::Ident("Self"@),
                TokenModel::RParen,
            ];
            let f = FormulaModel::Pred(unary_predicate(name, TypeExprModel::Self_)->Some_0);
            &&& predicate_at(bare, 0) == Ok::<(FormulaModel, int), TroubleModel>((f, 1))
            &&& predicate_at(full, 0) == Ok::<(FormulaModel, int), TroubleModel>((f, 4))
        }),
{
    let full = seq![
        TokenModel::Ident(name),
        TokenModel::LParen,
        TokenModel::Ident("Self"@),
        TokenModel::RParen,
    ];
    assert(full[2] == TokenModel::Ident("Self"@));
    assert(type_expr_at(full, 2) == Ok::<(TypeExprModel, int), TroubleModel>(
        (TypeExprModel::Self_, 3),
    ));
}

} // verus!

//! The syntax trees of type formulas, and the errors of reading and evaluating them.
use vstd::prelude::*;

use crate::text;
use crate::types::{TypeRepr, TypeReprModel};

verus! {

/// A reference to a function parameter, by index or by name.
#[derive(Debug, PartialEq, Eq)]
pub enum ParamRef {
    Index(usize),
    Name(String),
}

/// What a [`ParamRef`] holds.
#[verifier::ext_equal]
pub enum ParamRefModel {
    Index(usize),
    Name(Seq<char>),
}

impl DeepView for ParamRef {
    type V = ParamRefModel;

    open spec fn deep_view(&self) -> ParamRefModel {
        match self {
            ParamRef::Index(n) => ParamRefModel::Index(*n),
            ParamRef::Name(s) => ParamRefModel::Name(s@),
        }
    }
}

/// A type expression of the formula language.
#[derive(Debug, PartialEq, Eq)]
pub enum TypeExpr {
    /// `Self`: the type being specified
    Self_,
    /// A concrete type
    Literal(TypeRepr),
    /// `field(name)`: type of a struct field
    Field(String),
    /// `param(n)` or `param("name")`: type of a function parameter
    Param(ParamRef),
    /// `return`: type that a function returns
    Return,
    /// `con(T)`: the type constructor, without its arguments
    Con(Box<TypeExpr>),
    /// `arg(T, n)`: the n-th type argument
    Arg(Box<TypeExpr>, usize),
    /// `apply(F, A, ...)`: a type constructor applied to arguments
    Apply(Box<TypeExpr>, Vec<TypeExpr>),
    /// `function(A, B, ..., R)`: a function type, the last being what it returns
    Function(Vec<TypeExpr>),
    /// `domain(F, n?)`: parameter type of a function type
    Domain(Box<TypeExpr>, Option<usize>),
    /// `codomain(F)`: type that a function type returns
    Codomain(Box<TypeExpr>),
    /// `sum(A, B, ...)`: sum type
    Sum(Vec<TypeExpr>),
    /// `product(A, B, ...)`: product type
    Product(Vec<TypeExpr>),
}

/// What a [`TypeExpr`] holds.
#[verifier::ext_equal]
pub enum TypeExprModel {
    Self_,
    Literal(TypeReprModel),
    Field(Seq<char>),
    Param(ParamRefModel),
    Return,
    Con(Box<TypeExprModel>),
    Arg(Box<TypeExprModel>, usize),
    Apply(Box<TypeExprModel>, Seq<TypeExprModel>),
    Function(Seq<TypeExprModel>),
    Domain(Box<TypeExprModel>, Option<usize>),
    Codomain(Box<TypeExprModel>),
    Sum(Seq<TypeExprModel>),
    Product(Seq<TypeExprModel>),
}

pub open spec fn expr_model(e: TypeExpr) -> TypeExprModel
    decreases e,
{
    match e {
        TypeExpr::Self_ => TypeExprModel::Self_,
        TypeExpr::Literal(t) => TypeExprModel::Literal(t.deep_view()),
        TypeExpr::Field(name) => TypeExprModel::Field(name@),
        TypeExpr::Param(p) => TypeExprModel::Param(p.deep_view()),
        TypeExpr::Return => TypeExprModel::Return,
        TypeExpr::Con(inner) => TypeExprModel::Con(Box::new(expr_model(*inner))),
        TypeExpr::Arg(inner, n) => TypeExprModel::Arg(Box::new(expr_model(*inner)), n),
        TypeExpr::Apply(f, args) => TypeExprModel::Apply(
            Box::new(expr_model(*f)),
            expr_models(args),
        ),
        TypeExpr::Function(types) => TypeExprModel::Function(expr_models(types)),
        TypeExpr::Domain(f, n) => TypeExprModel::Domain(Box::new(expr_model(*f)), n),
        TypeExpr::Codomain(f) => TypeExprModel::Codomain(Box::new(expr_model(*f))),
        TypeExpr::Sum(types) => TypeExprModel::Sum(expr_models(types)),
        TypeExpr::Product(types) => TypeExprModel::Product(expr_models(types)),
    }
}

pub open spec fn expr_models(es: Vec<TypeExpr>) -> Seq<TypeExprModel>
    decreases es,
{
    Seq::new(
        es@.len(),
        |i: int|
            if 0 <= i < es@.len() {
                expr_model(es@[i])
            } else {
                TypeExprModel::Self_
            },
    )
}

impl DeepView for TypeExpr {
    type V = TypeExprModel;

    open spec fn deep_view(&self) -> TypeExprModel {
        expr_model(*self)
    }
}

/// The model of a type expression, with the models of its lists.
pub proof fn expr_model_of_lists(e: TypeExpr)
    ensures
        expr_model(e) == match e {
            TypeExpr::Apply(f, args) => TypeExprModel::Apply(
                Box::new(expr_model(*f)),
                args.deep_view(),
            ),
            TypeExpr::Function(types) => TypeExprModel::Function(types.deep_view()),
            TypeExpr::Sum(types) => TypeExprModel::Sum(types.deep_view()),
            TypeExpr::Product(types) => TypeExprModel::Product(types.deep_view()),
            _ => expr_model(e),
        },
{
    reveal_with_fuel(expr_model, 2);
    reveal_with_fuel(expr_models, 2);
    match e {
        TypeExpr::Apply(_, types)
        | TypeExpr::Function(types)
        | TypeExpr::Sum(types)
        | TypeExpr::Product(types) => {
            assert(expr_models(types) =~= types.deep_view());
        },
        _ => {},
    }
}

/// A predicate over types.
#[derive(Debug, PartialEq, Eq)]
pub enum Predicate {
    Equals(TypeExpr, TypeExpr),
    Matches(TypeExpr, String),
    IsSubtype(TypeExpr, String),
    IsSum(TypeExpr),
    IsProduct(TypeExpr),
    IsFunction(TypeExpr),
    HasField(TypeExpr, String),
    HasMethod(TypeExpr, String),
    HasVariant(TypeExpr, String),
    Cloneable(TypeExpr),
    Serializable(TypeExpr),
    Send(TypeExpr),
    Sync(TypeExpr),
    Fallible(TypeExpr),
    NoUnsafe(TypeExpr),
}

/// What a [`Predicate`] holds.
#[verifier::ext_equal]
pub enum PredicateModel {
    Equals(TypeExprModel, TypeExprModel),
    Matches(TypeExprModel, Seq<char>),
    IsSubtype(TypeExprModel, Seq<char>),
    IsSum(TypeExprModel),
    IsProduct(TypeExprModel),
    IsFunction(TypeExprModel),
    HasField(TypeExprModel, Seq<char>),
    HasMethod(TypeExprModel, Seq<char>),
    HasVariant(TypeExprModel, Seq<char>),
    Cloneable(TypeExprModel),
    Serializable(TypeExprModel),
    Send(TypeExprModel),
    Sync(TypeExprModel),
    Fallible(TypeExprModel),
    NoUnsafe(TypeExprModel),
}

impl DeepView for Predicate {
    type V = PredicateModel;

    open spec fn deep_view(&self) -> PredicateModel {
        match self {
            Predicate::Equals(a, b) => PredicateModel::Equals(a.deep_view(), b.deep_view()),
            Predicate::Matches(t, s) => PredicateModel::Matches(t.deep_view(), s@),
            Predicate::IsSubtype(t, s) => PredicateModel::IsSubtype(t.deep_view(), s@),
            Predicate::IsSum(t) => PredicateModel::IsSum(t.deep_view()),
            Predicate::IsProduct(t) => PredicateModel::IsProduct(t.deep_view()),
            Predicate::IsFunction(t) => PredicateModel::IsFunction(t.deep_view()),
            Predicate::HasField(t, s) => PredicateModel::HasField(t.deep_view(), s@),
            Predicate::HasMethod(t, s) => PredicateModel::HasMethod(t.deep_view(), s@),
            Predicate::HasVariant(t, s) => PredicateModel::HasVariant(t.deep_view(), s@),
            Predicate::Cloneable(t) => PredicateModel::Cloneable(t.deep_view()),
            Predicate::Serializable(t) => PredicateModel::Serializable(t.deep_view()),
            Predicate::Send(t) => PredicateModel::Send(t.deep_view()),
            Predicate::Sync(t) => PredicateModel::Sync(t.deep_view()),
            Predicate::Fallible(t) => PredicateModel::Fallible(t.deep_view()),
            Predicate::NoUnsafe(t) => PredicateModel::NoUnsafe(t.deep_view()),
        }
    }
}

/// Predicates combined with logical connectives.
#[derive(Debug, PartialEq, Eq)]
pub enum Formula {
    Pred(Predicate),
    And(Vec<Formula>),
    Or(Vec<Formula>),
    Not(Box<Formula>),
    Implies(Box<Formula>, Box<Formula>),
}

/// What a [`Formula`] holds.
#[verifier::ext_equal]
pub enum FormulaModel {
    Pred(PredicateModel),
    And(Seq<FormulaModel>),
    Or(Seq<FormulaModel>),
    Not(Box<FormulaModel>),
    Implies(Box<FormulaModel>, Box<FormulaModel>),
}

pub open spec fn formula_model(f: Formula) -> FormulaModel
    decreases f,
{
    match f {
        Formula::Pred(p) => FormulaModel::Pred(p.deep_view()),
        Formula::And(parts) => FormulaModel::And(formula_models(parts)),
        Formula::Or(parts) => FormulaModel::Or(formula_models(parts)),
        Formula::Not(inner) => FormulaModel::Not(Box::new(formula_model(*inner))),
        Formula::Implies(p, q) => FormulaModel::Implies(
            Box::new(formula_model(*p)),
            Box::new(formula_model(*q)),
        ),
    }
}

pub open spec fn formula_models(fs: Vec<Formula>) -> Seq<FormulaModel>
    decreases fs,
{
    Seq::new(
        fs@.len(),
        |i: int|
            if 0 <= i < fs@.len() {
                formula_model(fs@[i])
            } else {
                FormulaModel::And(Seq::empty())
            },
    )
}

impl DeepView for Formula {
    type V = FormulaModel;

    open spec fn deep_view(&self) -> FormulaModel {
        formula_model(*self)
    }
}

/// The model of a formula, with the models of its parts.
pub proof fn formula_model_of_lists(f: Formula)
    ensures
        formula_model(f) == match f {
            Formula::And(parts) => FormulaModel::And(parts.deep_view()),
            Formula::Or(parts) => FormulaModel::Or(parts.deep_view()),
            _ => formula_model(f),
        },
{
    reveal_with_fuel(formula_model, 2);
    reveal_with_fuel(formula_models, 2);
    match f {
        Formula::And(parts) | Formula::Or(parts) => {
            assert(formula_models(parts) =~= parts.deep_view());
        },
        _ => {},
    }
}

/// Why a formula or a type could not be read, and where.
#[derive(Debug, PartialEq, Eq)]
pub struct ParseError {
    pub message: String,
    pub position: usize,
}

/// What a [`ParseError`] holds.
#[verifier::ext_equal]
pub struct ParseErrorModel {
    pub message: Seq<char>,
    pub position: usize,
}

impl DeepView for ParseError {
    type V = ParseErrorModel;

    open spec fn deep_view(&self) -> ParseErrorModel {
        ParseErrorModel { message: self.message@, position: self.position }
    }
}

impl ParseError {
    pub fn to_string(&self) -> (r: String)
        ensures
            r@ == "Parse error at position "@ + text::decimal(self.position as nat) + ": "@
                + self.message@,
    {
        let mut out = "Parse error at position ".to_owned();
        out.append(text::usize_string(self.position).as_str());
        out.append(": ");
        out.append(self.message.as_str());
        out
    }
}

/// Why a formula could not be evaluated.
#[derive(Debug, PartialEq, Eq)]
pub struct EvalError {
    pub message: String,
}

impl DeepView for EvalError {
    type V = Seq<char>;

    open spec fn deep_view(&self) -> Seq<char> {
        self.message@
    }
}

impl EvalError {
    pub fn to_string(&self) -> (r: String)
        ensures
            r@ == "Evaluation error: "@ + self.message@,
    {
        let mut out = "Evaluation error: ".to_owned();
        out.append(self.message.as_str());
        out
    }
}

/// Why nothing was read: an error in the text, or a bracket that leaves nothing between
/// itself and the end, of which there is no reading at all.
#[derive(Debug)]
pub enum Trouble {
    Error(ParseError),
    Stuck,
}

/// What a [`Trouble`] holds.
#[verifier::ext_equal]
pub enum TroubleModel {
    Error(ParseErrorModel),
    Stuck,
}

impl DeepView for Trouble {
    type V = TroubleModel;

    open spec fn deep_view(&self) -> TroubleModel {
        match self {
            Trouble::Error(e) => TroubleModel::Error(e.deep_view()),
            Trouble::Stuck => TroubleModel::Stuck,
        }
    }
}

pub open spec fn trouble(message: Seq<char>, position: int) -> TroubleModel {
    TroubleModel::Error(ParseErrorModel { message, position: position as usize })
}

pub fn make_trouble(message: String, position: usize) -> (r: Trouble)
    ensures
        r.deep_view() == trouble(message@, position as int),
{
    Trouble::Error(ParseError { message, position })
}

} // verus!

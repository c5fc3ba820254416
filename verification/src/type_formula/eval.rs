//! Evaluating formulas against extracted types and functions.
use vstd::prelude::*;

use super::ast::{
    expr_model_of_lists, formula_model_of_lists, EvalError, Formula, FormulaModel, ParamRef,
    ParamRefModel, Predicate, PredicateModel, TypeExpr, TypeExprModel,
};
use crate::data::{
    append_item, has_key, list_contains, lookup, result_view, Duplicate, Same, StringMap,
};
use crate::pattern;
use crate::text;
use crate::types::{
    type_model, type_model_of_lists, type_text, FieldInfo, FieldInfoModel, FunctionInfo,
    FunctionInfoModel, ParamInfoModel, TypeInfo, TypeInfoModel, TypeKind, TypeRepr, TypeReprModel,
    VariantInfo, VariantInfoModel,
};

verus! {

/// What a formula is evaluated against: the type or the function that it constrains, and
/// everything that was extracted from the source file.
pub struct TypeEvalContext<'a> {
    pub self_type: Option<&'a TypeInfo>,
    pub function: Option<&'a FunctionInfo>,
    pub type_defs: &'a StringMap<TypeInfo>,
    pub function_defs: &'a StringMap<FunctionInfo>,
}

/// What a [`TypeEvalContext`] holds.
#[verifier::ext_equal]
pub struct ContextModel {
    pub self_type: Option<TypeInfoModel>,
    pub function: Option<FunctionInfoModel>,
    pub type_defs: Seq<(Seq<char>, TypeInfoModel)>,
    pub function_defs: Seq<(Seq<char>, FunctionInfoModel)>,
}

impl<'a> DeepView for TypeEvalContext<'a> {
    type V = ContextModel;

    open spec fn deep_view(&self) -> ContextModel {
        ContextModel {
            self_type: self.self_type.deep_view(),
            function: self.function.deep_view(),
            type_defs: self.type_defs.deep_view(),
            function_defs: self.function_defs.deep_view(),
        }
    }
}

// ─── Type expressions ─────────────────────────────────────────────────────────

/// The type of the first field with the name, from the `i`-th on.
pub open spec fn field_type(fields: Seq<FieldInfoModel>, name: Seq<char>, i: int) -> Option<
    TypeReprModel,
>
    decreases fields.len() - i,
{
    if i < 0 || i >= fields.len() {
        None
    } else if fields[i].name == name {
        Some(fields[i].type_repr)
    } else {
        field_type(fields, name, i + 1)
    }
}

/// The type of the first parameter with the name, from the `i`-th on.
pub open spec fn param_type(params: Seq<ParamInfoModel>, name: Seq<char>, i: int) -> Option<
    TypeReprModel,
>
    decreases params.len() - i,
{
    if i < 0 || i >= params.len() {
        None
    } else if params[i].name == Some(name) {
        Some(params[i].type_repr)
    } else {
        param_type(params, name, i + 1)
    }
}

/// The parameter's type in the function being specified.
pub open spec fn eval_param(param: ParamRefModel, ctx: ContextModel) -> Result<
    TypeReprModel,
    Seq<char>,
> {
    match ctx.function {
        None => Err("param() used but no function context available"@),
        Some(fi) => match param {
            ParamRefModel::Index(n) => if n < fi.params.len() {
                Ok(fi.params[n as int].type_repr)
            } else {
                Err(
                    "Function '"@ + fi.name + "' has no parameter at index "@ + text::decimal(
                        n as nat,
                    ) + " (has "@ + text::decimal(fi.params.len()) + " params)"@,
                )
            },
            ParamRefModel::Name(name) => match param_type(fi.params, name, 0) {
                Some(t) => Ok(t),
                None => Err(
                    "Function '"@ + fi.name + "' has no parameter named '"@ + name + "'"@,
                ),
            },
        },
    }
}

/// The type of a field of the type being specified.
pub open spec fn eval_field(name: Seq<char>, ctx: ContextModel) -> Result<TypeReprModel, Seq<char>> {
    match ctx.self_type {
        None => Err("field("@ + name + ") used but no type context available"@),
        Some(ti) => match field_type(ti.fields, name, 0) {
            Some(t) => Ok(t),
            None => Err("Type '"@ + ti.name + "' has no field '"@ + name + "'"@),
        },
    }
}

/// The type that the function being specified returns.
pub open spec fn eval_return(ctx: ContextModel) -> Result<TypeReprModel, Seq<char>> {
    match ctx.function {
        None => Err("return used but no function context available"@),
        Some(fi) => match fi.return_type {
            Some(t) => Ok(t),
            None => Err("Function '"@ + fi.name + "' has no return type"@),
        },
    }
}

/// A parameterized type without its arguments; any other type as it is.
pub open spec fn constructor_of(t: TypeReprModel) -> TypeReprModel {
    match t {
        TypeReprModel::Applied(base, _) => *base,
        other => other,
    }
}

/// The n-th type argument.
pub open spec fn argument_of(t: TypeReprModel, n: usize) -> Result<TypeReprModel, Seq<char>> {
    match t {
        TypeReprModel::Applied(_, args) => if n < args.len() {
            Ok(args[n as int])
        } else {
            Err(
                "Type has "@ + text::decimal(args.len()) + " type arguments, index "@
                    + text::decimal(n as nat) + " out of bounds"@,
            )
        },
        other => Err("arg() requires a parameterized type, got '"@ + type_text(other) + "'"@),
    }
}

/// The n-th parameter of a function type, or the first.
pub open spec fn domain_of(t: TypeReprModel, n: Option<usize>) -> Result<TypeReprModel, Seq<char>> {
    match t {
        TypeReprModel::FnPointer { params, .. } => {
            let i = match n {
                Some(i) => i,
                None => 0,
            };
            if i < params.len() {
                Ok(params[i as int])
            } else {
                Err(
                    "Function type has "@ + text::decimal(params.len()) + " params, index "@
                        + text::decimal(i as nat) + " out of bounds"@,
                )
            }
        },
        other => Err("domain() requires a function type, got '"@ + type_text(other) + "'"@),
    }
}

/// What a function type returns.
pub open spec fn codomain_of(t: TypeReprModel) -> Result<TypeReprModel, Seq<char>> {
    match t {
        TypeReprModel::FnPointer { ret, .. } => Ok(*ret),
        other => Err("codomain() requires a function type, got '"@ + type_text(other) + "'"@),
    }
}

/// The type that a type expression stands for.
pub open spec fn eval_type(e: TypeExprModel, ctx: ContextModel) -> Result<TypeReprModel, Seq<char>>
    decreases e, 0int,
{
    match e {
        TypeExprModel::Self_ => match ctx.self_type {
            Some(ti) => Ok(TypeReprModel::Named(ti.name)),
            None => Ok(TypeReprModel::Named("Self"@)),
        },
        TypeExprModel::Literal(t) => Ok(t),
        TypeExprModel::Field(name) => eval_field(name, ctx),
        TypeExprModel::Param(param) => eval_param(param, ctx),
        TypeExprModel::Return => eval_return(ctx),
        TypeExprModel::Con(inner) => match eval_type(*inner, ctx) {
            Ok(t) => Ok(constructor_of(t)),
            Err(m) => Err(m),
        },
        TypeExprModel::Arg(inner, n) => match eval_type(*inner, ctx) {
            Ok(t) => argument_of(t, n),
            Err(m) => Err(m),
        },
        TypeExprModel::Apply(f, args) => match eval_type(*f, ctx) {
            Ok(base) => match eval_types(args, 0, Seq::empty(), ctx) {
                Ok(ts) => Ok(TypeReprModel::Applied(Box::new(base), ts)),
                Err(m) => Err(m),
            },
            Err(m) => Err(m),
        },
        TypeExprModel::Function(types) => if types.len() == 0 {
            Err("function() requires at least one type (the return type)"@)
        } else {
            match eval_types(types, 0, Seq::empty(), ctx) {
                Ok(ts) => Ok(
                    TypeReprModel::FnPointer { params: ts.drop_last(), ret: Box::new(ts.last()) },
                ),
                Err(m) => Err(m),
            }
        },
        TypeExprModel::Domain(f, n) => match eval_type(*f, ctx) {
            Ok(t) => domain_of(t, n),
            Err(m) => Err(m),
        },
        TypeExprModel::Codomain(f) => match eval_type(*f, ctx) {
            Ok(t) => codomain_of(t),
            Err(m) => Err(m),
        },
        TypeExprModel::Sum(types) => match eval_types(types, 0, Seq::empty(), ctx) {
            Ok(ts) => Ok(TypeReprModel::Tuple(ts)),
            Err(m) => Err(m),
        },
        TypeExprModel::Product(types) => match eval_types(types, 0, Seq::empty(), ctx) {
            Ok(ts) => Ok(TypeReprModel::Tuple(ts)),
            Err(m) => Err(m),
        },
    }
}

/// The types of the expressions from the `i`-th on, behind those that are done; the first
/// error ends it.
pub open spec fn eval_types(
    es: Seq<TypeExprModel>,
    i: int,
    done: Seq<TypeReprModel>,
    ctx: ContextModel,
) -> Result<Seq<TypeReprModel>, Seq<char>>
    decreases es, es.len() - i,
{
    if i < 0 || i >= es.len() {
        Ok(done)
    } else {
        match eval_type(es[i], ctx) {
            Ok(t) => eval_types(es, i + 1, done.push(t), ctx),
            Err(m) => Err(m),
        }
    }
}

// ─── Predicates ───────────────────────────────────────────────────────────────

/// The type behind all references.
pub open spec fn without_references(t: TypeReprModel) -> TypeReprModel
    decreases t,
{
    match t {
        TypeReprModel::Reference { inner, .. } => without_references(*inner),
        other => other,
    }
}

/// The name of a type, or of the constructor of a parameterized type.
pub open spec fn name_of(t: TypeReprModel) -> Option<Seq<char>> {
    match t {
        TypeReprModel::Named(n) => Some(n),
        TypeReprModel::Applied(base, _) => match *base {
            TypeReprModel::Named(n) => Some(n),
            _ => None,
        },
        _ => None,
    }
}

/// The definition that was extracted for a type.
pub open spec fn definition_of(t: TypeReprModel, ctx: ContextModel) -> Option<TypeInfoModel> {
    match name_of(t) {
        Some(n) => lookup(ctx.type_defs, n),
        None => None,
    }
}

/// The definition of a type, or else the type being specified if it is that.
pub open spec fn definition_or_self(t: TypeReprModel, ctx: ContextModel) -> Option<TypeInfoModel> {
    match definition_of(t, ctx) {
        Some(ti) => Some(ti),
        None => match ctx.self_type {
            Some(ti) => if t == TypeReprModel::Named(ti.name) {
                Some(ti)
            } else {
                None
            },
            None => None,
        },
    }
}

/// The definition of a type, or else the type being specified if it has that name.
pub open spec fn definition_or_same_name(t: TypeReprModel, ctx: ContextModel) -> Option<
    TypeInfoModel,
> {
    match definition_of(t, ctx) {
        Some(ti) => Some(ti),
        None => match ctx.self_type {
            Some(ti) => if name_of(t) == Some(ti.name) {
                Some(ti)
            } else {
                None
            },
            None => None,
        },
    }
}

/// Whether a type implements or derives a trait.
pub open spec fn has_trait(ti: TypeInfoModel, name: Seq<char>) -> bool {
    ti.trait_impls.contains(name) || ti.derives.contains(name)
}

pub open spec fn has_field_named(fields: Seq<FieldInfoModel>, name: Seq<char>) -> bool {
    exists|i: int| 0 <= i < fields.len() && (#[trigger] fields[i]).name == name
}

pub open spec fn has_variant_named(variants: Seq<VariantInfoModel>, name: Seq<char>) -> bool {
    exists|i: int| 0 <= i < variants.len() && (#[trigger] variants[i]).name == name
}

/// A text with every underscore turned into the expression for any characters.
pub open spec fn wildcards(s: Seq<char>) -> Seq<char>
    decreases s.len(),
{
    if s.len() == 0 {
        Seq::empty()
    } else if s.last() == '_' {
        wildcards(s.drop_last()) + ".*"@
    } else {
        wildcards(s.drop_last()).push(s.last())
    }
}

/// The regular expression of a pattern, in which an underscore stands for any characters
/// and every other character for itself.
pub open spec fn pattern_regex(p: Seq<char>) -> Seq<char> {
    "^"@ + wildcards(pattern::regex_escaped(p)) + "$"@
}

/// Whether a type is written as a pattern says, given what the search for the pattern's
/// regular expression ended in.
pub open spec fn matched(p: Seq<char>, found: Result<bool, Seq<char>>) -> Result<bool, Seq<char>> {
    match found {
        Ok(b) => Ok(b),
        Err(m) => Err("Invalid match pattern '"@ + p + "': "@ + m),
    }
}

/// Whether a type, once it is known, satisfies a predicate on one type.
pub open spec fn holds_of_type(p: PredicateModel, t: TypeReprModel, ctx: ContextModel) -> bool {
    match p {
        PredicateModel::IsSubtype(_, name) => match definition_of(t, ctx) {
            Some(ti) => has_trait(ti, name),
            None => false,
        },
        PredicateModel::IsSum(_) => match definition_of(t, ctx) {
            Some(ti) => ti.kind == TypeKind::Enum,
            None => false,
        },
        PredicateModel::IsProduct(_) => t is Tuple || match definition_of(t, ctx) {
            Some(ti) => ti.kind == TypeKind::Struct,
            None => false,
        },
        PredicateModel::IsFunction(_) => t is FnPointer,
        PredicateModel::HasField(_, name) => match definition_or_self(t, ctx) {
            Some(ti) => has_field_named(ti.fields, name),
            None => false,
        },
        PredicateModel::HasMethod(_, name) => match name_of(t) {
            Some(n) => has_key(ctx.function_defs, n + "."@ + name),
            None => false,
        },
        PredicateModel::HasVariant(_, name) => match definition_or_self(t, ctx) {
            Some(ti) => has_variant_named(ti.variants, name),
            None => false,
        },
        PredicateModel::Cloneable(_) => trait_known(t, "Clone"@, ctx),
        PredicateModel::Serializable(_) => trait_known(t, "Serialize"@, ctx),
        PredicateModel::Send(_) => trait_known(t, "Send"@, ctx),
        PredicateModel::Sync(_) => trait_known(t, "Sync"@, ctx),
        PredicateModel::Fallible(_) => t is Applied && (name_of(t) == Some("Result"@) || name_of(t)
            == Some("Option"@)),
        _ => true,
    }
}

/// Whether the definition of a type, or the type being specified, has the trait.
pub open spec fn trait_known(t: TypeReprModel, name: Seq<char>, ctx: ContextModel) -> bool {
    match definition_or_same_name(t, ctx) {
        Some(ti) => has_trait(ti, name),
        None => false,
    }
}

/// The type expression that a predicate is about; the first one of `equals`.
pub open spec fn subject(p: PredicateModel) -> TypeExprModel {
    match p {
        PredicateModel::Equals(t, _) => t,
        PredicateModel::Matches(t, _) => t,
        PredicateModel::IsSubtype(t, _) => t,
        PredicateModel::IsSum(t) => t,
        PredicateModel::IsProduct(t) => t,
        PredicateModel::IsFunction(t) => t,
        PredicateModel::HasField(t, _) => t,
        PredicateModel::HasMethod(t, _) => t,
        PredicateModel::HasVariant(t, _) => t,
        PredicateModel::Cloneable(t) => t,
        PredicateModel::Serializable(t) => t,
        PredicateModel::Send(t) => t,
        PredicateModel::Sync(t) => t,
        PredicateModel::Fallible(t) => t,
        PredicateModel::NoUnsafe(t) => t,
    }
}

/// Whether a predicate holds.
///
/// Whether code is free of unsafe blocks cannot be seen from types: `no_unsafe` holds always.
pub open spec fn eval_predicate(p: PredicateModel, ctx: ContextModel) -> Result<bool, Seq<char>> {
    if p is NoUnsafe {
        Ok(true)
    } else {
        match eval_type(subject(p), ctx) {
            Ok(t) => match p {
                PredicateModel::Equals(_, b) => match eval_type(b, ctx) {
                    Ok(u) => Ok(without_references(t) == without_references(u)),
                    Err(m) => Err(m),
                },
                PredicateModel::Matches(_, s) => matched(
                    s,
                    pattern::regex_match(pattern_regex(s), type_text(t)),
                ),
                _ => Ok(holds_of_type(p, t, ctx)),
            },
            Err(m) => Err(m),
        }
    }
}

// ─── Formulas ─────────────────────────────────────────────────────────────────

/// Whether a formula holds.
pub open spec fn eval_formula(f: FormulaModel, ctx: ContextModel) -> Result<bool, Seq<char>>
    decreases f, 0int,
{
    match f {
        FormulaModel::Pred(p) => eval_predicate(p, ctx),
        FormulaModel::And(parts) => eval_all(parts, 0, ctx),
        FormulaModel::Or(parts) => eval_any(parts, 0, ctx),
        FormulaModel::Not(inner) => match eval_formula(*inner, ctx) {
            Ok(b) => Ok(!b),
            Err(m) => Err(m),
        },
        FormulaModel::Implies(premise, conclusion) => match eval_formula(*premise, ctx) {
            Ok(true) => eval_formula(*conclusion, ctx),
            Ok(false) => Ok(true),
            Err(m) => Err(m),
        },
    }
}

/// Whether all parts from the `i`-th on hold; the first that does not, or cannot be
/// evaluated, decides.
pub open spec fn eval_all(parts: Seq<FormulaModel>, i: int, ctx: ContextModel) -> Result<
    bool,
    Seq<char>,
>
    decreases parts, parts.len() - i,
{
    if i < 0 || i >= parts.len() {
        Ok(true)
    } else {
        match eval_formula(parts[i], ctx) {
            Ok(true) => eval_all(parts, i + 1, ctx),
            other => other,
        }
    }
}

/// Whether one of the parts from the `i`-th on holds; the first that does, or cannot be
/// evaluated, decides.
pub open spec fn eval_any(parts: Seq<FormulaModel>, i: int, ctx: ContextModel) -> Result<
    bool,
    Seq<char>,
>
    decreases parts, parts.len() - i,
{
    if i < 0 || i >= parts.len() {
        Ok(false)
    } else {
        match eval_formula(parts[i], ctx) {
            Ok(false) => eval_any(parts, i + 1, ctx),
            other => other,
        }
    }
}

/// What an evaluation ended in.
pub open spec fn truth_view(r: Result<bool, EvalError>) -> Result<bool, Seq<char>> {
    match r {
        Ok(b) => Ok(b),
        Err(e) => Err(e.message@),
    }
}

// ─── Evaluation ───────────────────────────────────────────────────────────────

fn three(a: &str, b: &str, c: &str) -> (r: String)
    ensures
        r@ == a@ + b@ + c@,
{
    let mut out = a.to_owned();
    out.append(b);
    out.append(c);
    out
}

fn five(a: &str, b: &str, c: &str, d: &str, e: &str) -> (r: String)
    ensures
        r@ == a@ + b@ + c@ + d@ + e@,
{
    let mut out = three(a, b, c);
    out.append(d);
    out.append(e);
    out
}

fn evaluate_field(name: &String, ctx: &TypeEvalContext) -> (r: Result<TypeRepr, EvalError>)
    ensures
        result_view(r) == eval_field(name@, ctx.deep_view()),
{
    let ti = match ctx.self_type {
        Some(ti) => ti,
        None => {
            return Err(
                EvalError {
                    message: three(
                        "field(",
                        name.as_str(),
                        ") used but no type context available",
                    ),
                },
            );
        },
    };
    let fields = &ti.fields;
    let mut i: usize = 0;
    while i < fields.len()
        invariant
            i <= fields@.len(),
            fields.deep_view() == ctx.deep_view().self_type->0.fields,
            ctx.deep_view().self_type is Some,
            field_type(fields.deep_view(), name@, 0) == field_type(
                fields.deep_view(),
                name@,
                i as int,
            ),
        decreases fields@.len() - i,
    {
        assert(fields.deep_view()[i as int] == fields@[i as int].deep_view());
        if fields[i].name == *name {
            return Ok(fields[i].type_repr.duplicate());
        }
        i += 1;
    }
    Err(
        EvalError {
            message: five("Type '", ti.name.as_str(), "' has no field '", name.as_str(), "'"),
        },
    )
}

fn evaluate_param(param: &ParamRef, ctx: &TypeEvalContext) -> (r: Result<TypeRepr, EvalError>)
    ensures
        result_view(r) == eval_param(param.deep_view(), ctx.deep_view()),
{
    let fi = match ctx.function {
        Some(fi) => fi,
        None => {
            return Err(
                EvalError { message: "param() used but no function context available".to_owned() },
            );
        },
    };
    let params = &fi.params;
    match param {
        ParamRef::Index(n) => {
            if *n < params.len() {
                assert(params.deep_view()[*n as int] == params@[*n as int].deep_view());
                Ok(params[*n].type_repr.duplicate())
            } else {
                let mut message = five(
                    "Function '",
                    fi.name.as_str(),
                    "' has no parameter at index ",
                    text::usize_string(*n).as_str(),
                    " (has ",
                );
                message.append(text::usize_string(params.len()).as_str());
                message.append(" params)");
                Err(EvalError { message })
            }
        },
        ParamRef::Name(name) => {
            let mut i: usize = 0;
            while i < params.len()
                invariant
                    i <= params@.len(),
                    param.deep_view() == ParamRefModel::Name(name@),
                    ctx.deep_view().function is Some,
                    params.deep_view() == ctx.deep_view().function->0.params,
                    param_type(params.deep_view(), name@, 0) == param_type(
                        params.deep_view(),
                        name@,
                        i as int,
                    ),
                decreases params@.len() - i,
            {
                assert(params.deep_view()[i as int] == params@[i as int].deep_view());
                let found = match &params[i].name {
                    Some(n) => *n == *name,
                    None => false,
                };
                if found {
                    return Ok(params[i].type_repr.duplicate());
                }
                i += 1;
            }
            Err(
                EvalError {
                    message: five(
                        "Function '",
                        fi.name.as_str(),
                        "' has no parameter named '",
                        name.as_str(),
                        "'",
                    ),
                },
            )
        },
    }
}

fn evaluate_return(ctx: &TypeEvalContext) -> (r: Result<TypeRepr, EvalError>)
    ensures
        result_view(r) == eval_return(ctx.deep_view()),
{
    match ctx.function {
        None => Err(
            EvalError { message: "return used but no function context available".to_owned() },
        ),
        Some(fi) => match &fi.return_type {
            Some(t) => Ok(t.duplicate()),
            None => Err(
                EvalError {
                    message: three("Function '", fi.name.as_str(), "' has no return type"),
                },
            ),
        },
    }
}

fn take_constructor(t: TypeRepr) -> (r: TypeRepr)
    ensures
        r.deep_view() == constructor_of(t.deep_view()),
{
    match t {
        TypeRepr::Applied(base, _) => *base,
        other => other,
    }
}

fn take_argument(t: &TypeRepr, n: usize) -> (r: Result<TypeRepr, EvalError>)
    ensures
        result_view(r) == argument_of(t.deep_view(), n),
{
    proof {
        type_model_of_lists(*t);
    }
    match t {
        TypeRepr::Applied(_, args) => {
            if n < args.len() {
                assert(args.deep_view()[n as int] == args@[n as int].deep_view());
                Ok(args[n].duplicate())
            } else {
                Err(
                    EvalError {
                        message: five(
                            "Type has ",
                            text::usize_string(args.len()).as_str(),
                            " type arguments, index ",
                            text::usize_string(n).as_str(),
                            " out of bounds",
                        ),
                    },
                )
            }
        },
        other => Err(
            EvalError {
                message: three(
                    "arg() requires a parameterized type, got '",
                    other.to_string().as_str(),
                    "'",
                ),
            },
        ),
    }
}

fn take_domain(t: &TypeRepr, n: Option<usize>) -> (r: Result<TypeRepr, EvalError>)
    ensures
        result_view(r) == domain_of(t.deep_view(), n),
{
    proof {
        type_model_of_lists(*t);
    }
    match t {
        TypeRepr::FnPointer { params, ret: _ } => {
            let i: usize = match n {
                Some(i) => i,
                None => 0,
            };
            if i < params.len() {
                assert(params.deep_view()[i as int] == params@[i as int].deep_view());
                Ok(params[i].duplicate())
            } else {
                Err(
                    EvalError {
                        message: five(
                            "Function type has ",
                            text::usize_string(params.len()).as_str(),
                            " params, index ",
                            text::usize_string(i).as_str(),
                            " out of bounds",
                        ),
                    },
                )
            }
        },
        other => Err(
            EvalError {
                message: three(
                    "domain() requires a function type, got '",
                    other.to_string().as_str(),
                    "'",
                ),
            },
        ),
    }
}

fn take_codomain(t: TypeRepr) -> (r: Result<TypeRepr, EvalError>)
    ensures
        result_view(r) == codomain_of(t.deep_view()),
{
    match t {
        TypeRepr::FnPointer { params: _, ret } => Ok(*ret),
        other => Err(
            EvalError {
                message: three(
                    "codomain() requires a function type, got '",
                    other.to_string().as_str(),
                    "'",
                ),
            },
        ),
    }
}

/// Evaluates a type expression to a type.
pub fn evaluate_type_expr(expr: &TypeExpr, ctx: &TypeEvalContext) -> (r: Result<
    TypeRepr,
    EvalError,
>)
    ensures
        result_view(r) == eval_type(expr.deep_view(), ctx.deep_view()),
    decreases expr,
{
    proof {
        expr_model_of_lists(*expr);
    }
    match expr {
        TypeExpr::Self_ => match ctx.self_type {
            Some(ti) => Ok(TypeRepr::Named(ti.name.clone())),
            None => Ok(TypeRepr::Named("Self".to_owned())),
        },
        TypeExpr::Literal(t) => Ok(t.duplicate()),
        TypeExpr::Field(name) => evaluate_field(name, ctx),
        TypeExpr::Param(param) => evaluate_param(param, ctx),
        TypeExpr::Return => evaluate_return(ctx),
        TypeExpr::Con(inner) => {
            let t = evaluate_type_expr(inner, ctx)?;
            Ok(take_constructor(t))
        },
        TypeExpr::Arg(inner, n) => {
            let t = evaluate_type_expr(inner, ctx)?;
            take_argument(&t, *n)
        },
        TypeExpr::Apply(f, args) => {
            let base = evaluate_type_expr(f, ctx)?;
            let ts = evaluate_type_exprs(args, ctx)?;
            let r = TypeRepr::Applied(Box::new(base), ts);
            proof {
                type_model_of_lists(r);
            }
            Ok(r)
        },
        TypeExpr::Function(types) => {
            if types.len() == 0 {
                return Err(
                    EvalError {
                        message: "function() requires at least one type (the return type)".to_owned(),
                    },
                );
            }
            let mut ts = evaluate_type_exprs(types, ctx)?;
            let ghost all = ts.deep_view();
            match ts.pop() {
                Some(ret) => {
                    assert(ts.deep_view() =~= all.drop_last());
                    assert(all.last() == ret.deep_view());
                    let r = TypeRepr::FnPointer { params: ts, ret: Box::new(ret) };
                    proof {
                        type_model_of_lists(r);
                    }
                    Ok(r)
                },
                None => Ok(TypeRepr::Unit),
            }
        },
        TypeExpr::Domain(f, n) => {
            let t = evaluate_type_expr(f, ctx)?;
            take_domain(&t, *n)
        },
        TypeExpr::Codomain(f) => {
            let t = evaluate_type_expr(f, ctx)?;
            take_codomain(t)
        },
        TypeExpr::Sum(types) => {
            let ts = evaluate_type_exprs(types, ctx)?;
            let r = TypeRepr::Tuple(ts);
            proof {
                type_model_of_lists(r);
            }
            Ok(r)
        },
        TypeExpr::Product(types) => {
            let ts = evaluate_type_exprs(types, ctx)?;
            let r = TypeRepr::Tuple(ts);
            proof {
                type_model_of_lists(r);
            }
            Ok(r)
        },
    }
}

fn evaluate_type_exprs(exprs: &Vec<TypeExpr>, ctx: &TypeEvalContext) -> (r: Result<
    Vec<TypeRepr>,
    EvalError,
>)
    ensures
        result_view(r) == eval_types(exprs.deep_view(), 0, Seq::empty(), ctx.deep_view()),
        r matches Ok(ts) ==> ts@.len() == exprs@.len(),
    decreases exprs,
{
    let mut out: Vec<TypeRepr> = Vec::new();
    let mut i: usize = 0;
    let ghost es = exprs.deep_view();
    let ghost model = ctx.deep_view();
    assert(out.deep_view() =~= Seq::empty());
    while i < exprs.len()
        invariant
            i <= exprs@.len(),
            out@.len() == i,
            es == exprs.deep_view(),
            model == ctx.deep_view(),
            eval_types(es, 0, Seq::empty(), model) == eval_types(
                es,
                i as int,
                out.deep_view(),
                model,
            ),
        decreases exprs@.len() - i,
    {
        assert(es[i as int] == exprs@[i as int].deep_view());
        let t = evaluate_type_expr(&exprs[i], ctx)?;
        append_item(&mut out, t);
        assert(out.deep_view().len() == out@.len());
        i += 1;
    }
    Ok(out)
}

/// The type behind all references, which makes comparison independent of how values are
/// passed: `&mut Self` is `Self`, and `&[Rule]` is `[Rule]`.
fn strip_references(repr: &TypeRepr) -> (r: &TypeRepr)
    ensures
        r.deep_view() == without_references(repr.deep_view()),
    decreases repr,
{
    match repr {
        TypeRepr::Reference { mutable: _, inner } => strip_references(inner),
        _ => repr,
    }
}

fn extract_type_name(repr: &TypeRepr) -> (r: Option<&String>)
    ensures
        match r {
            Some(n) => name_of(repr.deep_view()) == Some(n@),
            None => name_of(repr.deep_view()) is None,
        },
{
    proof {
        reveal_with_fuel(type_model, 2);
    }
    match repr {
        TypeRepr::Named(n) => Some(n),
        TypeRepr::Applied(base, _) => match &**base {
            TypeRepr::Named(n) => Some(n),
            _ => None,
        },
        _ => None,
    }
}

fn find_definition<'a>(repr: &TypeRepr, ctx: &TypeEvalContext<'a>) -> (r: Option<&'a TypeInfo>)
    ensures
        r.deep_view() == definition_of(repr.deep_view(), ctx.deep_view()),
{
    match extract_type_name(repr) {
        Some(n) => ctx.type_defs.get(n.as_str()),
        None => None,
    }
}

fn find_definition_or_self<'a>(repr: &TypeRepr, ctx: &TypeEvalContext<'a>) -> (r: Option<
    &'a TypeInfo,
>)
    ensures
        r.deep_view() == definition_or_self(repr.deep_view(), ctx.deep_view()),
{
    match find_definition(repr, ctx) {
        Some(ti) => Some(ti),
        None => match ctx.self_type {
            Some(ti) => {
                let own = TypeRepr::Named(ti.name.clone());
                if repr.same(&own) {
                    Some(ti)
                } else {
                    None
                }
            },
            None => None,
        },
    }
}

fn find_definition_or_same_name<'a>(repr: &TypeRepr, ctx: &TypeEvalContext<'a>) -> (r: Option<
    &'a TypeInfo,
>)
    ensures
        r.deep_view() == definition_or_same_name(repr.deep_view(), ctx.deep_view()),
{
    match find_definition(repr, ctx) {
        Some(ti) => Some(ti),
        None => match (ctx.self_type, extract_type_name(repr)) {
            (Some(ti), Some(n)) => if *n == ti.name {
                Some(ti)
            } else {
                None
            },
            _ => None,
        },
    }
}

fn implements(ti: &TypeInfo, name: &String) -> (b: bool)
    ensures
        b == has_trait(ti.deep_view(), name@),
{
    list_contains(ti.trait_impls.as_slice(), name) || list_contains(ti.derives.as_slice(), name)
}

fn check_trait_or_derive(repr: &TypeRepr, trait_name: &str, ctx: &TypeEvalContext) -> (b: bool)
    ensures
        b == trait_known(repr.deep_view(), trait_name@, ctx.deep_view()),
{
    match find_definition_or_same_name(repr, ctx) {
        Some(ti) => implements(ti, &trait_name.to_owned()),
        None => false,
    }
}

/// Whether one of the fields has the name.
pub fn any_field_named(fields: &Vec<FieldInfo>, name: &String) -> (b: bool)
    ensures
        b == has_field_named(fields.deep_view(), name@),
{
    let mut i: usize = 0;
    while i < fields.len()
        invariant
            i <= fields@.len(),
            forall|j: int| 0 <= j < i ==> (#[trigger] fields@[j]).deep_view().name != name@,
        decreases fields@.len() - i,
    {
        if fields[i].name == *name {
            assert(fields.deep_view()[i as int].name == name@);
            return true;
        }
        i += 1;
    }
    assert forall|j: int| 0 <= j < fields.deep_view().len() implies (
    #[trigger] fields.deep_view()[j]).name != name@ by {
        assert(fields@[j].deep_view().name != name@);
    }
    false
}

/// Whether one of the variants has the name.
pub fn any_variant_named(variants: &Vec<VariantInfo>, name: &String) -> (b: bool)
    ensures
        b == has_variant_named(variants.deep_view(), name@),
{
    let mut i: usize = 0;
    while i < variants.len()
        invariant
            i <= variants@.len(),
            forall|j: int| 0 <= j < i ==> (#[trigger] variants@[j]).deep_view().name != name@,
        decreases variants@.len() - i,
    {
        if variants[i].name == *name {
            assert(variants.deep_view()[i as int].name == name@);
            return true;
        }
        i += 1;
    }
    assert forall|j: int| 0 <= j < variants.deep_view().len() implies (
    #[trigger] variants.deep_view()[j]).name != name@ by {
        assert(variants@[j].deep_view().name != name@);
    }
    false
}

fn expand_wildcards(s: &str) -> (r: String)
    ensures
        r@ == wildcards(s@),
{
    let chars = text::chars_of(s);
    let mut out: String = String::new();
    let mut i: usize = 0;
    assert(chars@.take(0).len() == 0);
    while i < chars.len()
        invariant
            i <= chars@.len(),
            out@ == wildcards(chars@.take(i as int)),
        decreases chars@.len() - i,
    {
        assert(chars@.take(i + 1).drop_last() =~= chars@.take(i as int));
        if chars[i] == '_' {
            out.append(".*");
        } else {
            out.push(chars[i]);
        }
        i += 1;
    }
    assert(chars@.take(chars@.len() as int) =~= chars@);
    out
}

fn make_pattern_regex(p: &str) -> (r: String)
    ensures
        r@ == pattern_regex(p@),
{
    let escaped = regex::escape(p);
    let expanded = expand_wildcards(escaped.as_str());
    three("^", expanded.as_str(), "$")
}

/// What the search for a pattern's regular expression means for the predicate.
pub fn conclude_match(p: &str, found: Result<bool, String>) -> (r: Result<bool, EvalError>)
    ensures
        truth_view(r) == matched(p@, pattern::match_view(found)),
{
    match found {
        Ok(b) => Ok(b),
        Err(m) => {
            let mut message = three("Invalid match pattern '", p, "': ");
            message.append(m.as_str());
            Err(EvalError { message })
        },
    }
}

/// Evaluates a predicate.
pub fn evaluate_predicate(pred: &Predicate, ctx: &TypeEvalContext) -> (r: Result<bool, EvalError>)
    ensures
        truth_view(r) == eval_predicate(pred.deep_view(), ctx.deep_view()),
{
    let ghost model = pred.deep_view();
    match pred {
        Predicate::Equals(a, b) => {
            let t = evaluate_type_expr(a, ctx)?;
            let u = evaluate_type_expr(b, ctx)?;
            Ok(strip_references(&t).same(strip_references(&u)))
        },
        Predicate::Matches(a, s) => {
            let t = evaluate_type_expr(a, ctx)?;
            let written = t.to_string();
            let expression = make_pattern_regex(s.as_str());
            let found = pattern::search(expression.as_str(), written.as_str());
            conclude_match(s.as_str(), found)
        },
        Predicate::IsSubtype(a, name) => {
            let t = evaluate_type_expr(a, ctx)?;
            match find_definition(&t, ctx) {
                Some(ti) => Ok(implements(ti, name)),
                None => Ok(false),
            }
        },
        Predicate::IsSum(a) => {
            let t = evaluate_type_expr(a, ctx)?;
            match find_definition(&t, ctx) {
                Some(ti) => Ok(ti.kind == TypeKind::Enum),
                None => Ok(false),
            }
        },
        Predicate::IsProduct(a) => {
            let t = evaluate_type_expr(a, ctx)?;
            match &t {
                TypeRepr::Tuple(_) => Ok(true),
                _ => match find_definition(&t, ctx) {
                    Some(ti) => Ok(ti.kind == TypeKind::Struct),
                    None => Ok(false),
                },
            }
        },
        Predicate::IsFunction(a) => {
            let t = evaluate_type_expr(a, ctx)?;
            match &t {
                TypeRepr::FnPointer { params: _, ret: _ } => Ok(true),
                _ => Ok(false),
            }
        },
        Predicate::HasField(a, name) => {
            let t = evaluate_type_expr(a, ctx)?;
            match find_definition_or_self(&t, ctx) {
                Some(ti) => Ok(any_field_named(&ti.fields, name)),
                None => Ok(false),
            }
        },
        Predicate::HasMethod(a, name) => {
            let t = evaluate_type_expr(a, ctx)?;
            match extract_type_name(&t) {
                Some(n) => {
                    let key = three(n.as_str(), ".", name.as_str());
                    Ok(ctx.function_defs.contains_key(key.as_str()))
                },
                None => Ok(false),
            }
        },
        Predicate::HasVariant(a, name) => {
            let t = evaluate_type_expr(a, ctx)?;
            match find_definition_or_self(&t, ctx) {
                Some(ti) => Ok(any_variant_named(&ti.variants, name)),
                None => Ok(false),
            }
        },
        Predicate::Cloneable(a) => {
            let t = evaluate_type_expr(a, ctx)?;
            Ok(check_trait_or_derive(&t, "Clone", ctx))
        },
        Predicate::Serializable(a) => {
            let t = evaluate_type_expr(a, ctx)?;
            Ok(check_trait_or_derive(&t, "Serialize", ctx))
        },
        Predicate::Send(a) => {
            let t = evaluate_type_expr(a, ctx)?;
            Ok(check_trait_or_derive(&t, "Send", ctx))
        },
        Predicate::Sync(a) => {
            let t = evaluate_type_expr(a, ctx)?;
            Ok(check_trait_or_derive(&t, "Sync", ctx))
        },
        Predicate::Fallible(a) => {
            let t = evaluate_type_expr(a, ctx)?;
            match &t {
                TypeRepr::Applied(_, _) => match extract_type_name(&t) {
                    Some(n) => Ok(
                        text::same(n.as_str(), "Result") || text::same(n.as_str(), "Option"),
                    ),
                    None => Ok(false),
                },
                _ => Ok(false),
            }
        },
        Predicate::NoUnsafe(_) => Ok(true),
    }
}

/// Evaluates a formula.
pub fn evaluate_formula(formula: &Formula, ctx: &TypeEvalContext) -> (r: Result<bool, EvalError>)
    ensures
        truth_view(r) == eval_formula(formula.deep_view(), ctx.deep_view()),
    decreases formula,
{
    proof {
        formula_model_of_lists(*formula);
    }
    match formula {
        Formula::Pred(p) => evaluate_predicate(p, ctx),
        Formula::And(parts) => evaluate_all(parts, ctx),
        Formula::Or(parts) => evaluate_any(parts, ctx),
        Formula::Not(inner) => {
            let b = evaluate_formula(inner, ctx)?;
            Ok(!b)
        },
        Formula::Implies(premise, conclusion) => {
            let b = evaluate_formula(premise, ctx)?;
            if b {
                evaluate_formula(conclusion, ctx)
            } else {
                Ok(true)
            }
        },
    }
}

fn evaluate_all(parts: &Vec<Formula>, ctx: &TypeEvalContext) -> (r: Result<bool, EvalError>)
    ensures
        truth_view(r) == eval_all(parts.deep_view(), 0, ctx.deep_view()),
    decreases parts,
{
    let mut i: usize = 0;
    while i < parts.len()
        invariant
            i <= parts@.len(),
            eval_all(parts.deep_view(), 0, ctx.deep_view()) == eval_all(
                parts.deep_view(),
                i as int,
                ctx.deep_view(),
            ),
        decreases parts@.len() - i,
    {
        assert(parts.deep_view()[i as int] == parts@[i as int].deep_view());
        let b = evaluate_formula(&parts[i], ctx)?;
        if !b {
            return Ok(false);
        }
        i += 1;
    }
    Ok(true)
}

fn evaluate_any(parts: &Vec<Formula>, ctx: &TypeEvalContext) -> (r: Result<bool, EvalError>)
    ensures
        truth_view(r) == eval_any(parts.deep_view(), 0, ctx.deep_view()),
    decreases parts,
{
    let mut i: usize = 0;
    while i < parts.len()
        invariant
            i <= parts@.len(),
            eval_any(parts.deep_view(), 0, ctx.deep_view()) == eval_any(
                parts.deep_view(),
                i as int,
                ctx.deep_view(),
            ),
        decreases parts@.len() - i,
    {
        assert(parts.deep_view()[i as int] == parts@[i as int].deep_view());
        let b = evaluate_formula(&parts[i], ctx)?;
        if b {
            return Ok(true);
        }
        i += 1;
    }
    Ok(false)
}

// ─── Laws ─────────────────────────────────────────────────────────────────────

/// `equals` does not see references: an expression for `&T` or `&mut T` equals whatever an
/// expression for `T` equals.
pub proof fn equals_ignores_references(
    reference: TypeExprModel,
    plain: TypeExprModel,
    other: TypeExprModel,
    mutable: bool,
    t: TypeReprModel,
    ctx: ContextModel,
)
    requires
        eval_type(plain, ctx) == Ok::<TypeReprModel, Seq<char>>(t),
        eval_type(reference, ctx) == Ok::<TypeReprModel, Seq<char>>(
            (TypeReprModel::Reference { mutable, inner: Box::new(t) }),
        ),
    ensures
        eval_predicate(PredicateModel::Equals(reference, other), ctx) == eval_predicate(
            PredicateModel::Equals(plain, other),
            ctx,
        ),
{
}

/// `equals` is symmetric where both sides can be evaluated.
pub proof fn equals_is_symmetric(a: TypeExprModel, b: TypeExprModel, ctx: ContextModel)
    requires
        eval_type(a, ctx) is Ok,
        eval_type(b, ctx) is Ok,
    ensures
        eval_predicate(PredicateModel::Equals(a, b), ctx) == eval_predicate(
            PredicateModel::Equals(b, a),
            ctx,
        ),
{
}

/// The constructor of an applied constructor is the constructor itself.
pub proof fn con_of_apply(f: TypeExprModel, args: Seq<TypeExprModel>, ctx: ContextModel)
    requires
        eval_type(TypeExprModel::Apply(Box::new(f), args), ctx) is Ok,
    ensures
        eval_type(TypeExprModel::Con(Box::new(TypeExprModel::Apply(Box::new(f), args))), ctx)
            == eval_type(f, ctx),
{
    reveal_with_fuel(eval_type, 3);
}

proof fn lemma_eval_types_elements(
    es: Seq<TypeExprModel>,
    i: int,
    done: Seq<TypeReprModel>,
    ctx: ContextModel,
    k: int,
)
    requires
        0 <= i <= es.len(),
        done.len() == i,
        eval_types(es, i, done, ctx) is Ok,
    ensures
        0 <= k < i ==> eval_types(es, i, done, ctx)->Ok_0[k] == done[k],
        i <= k < es.len() ==> eval_type(es[k], ctx) == Ok::<TypeReprModel, Seq<char>>(
            eval_types(es, i, done, ctx)->Ok_0[k],
        ),
        eval_types(es, i, done, ctx)->Ok_0.len() == es.len(),
    decreases es.len() - i,
{
    if i < es.len() {
        let t = eval_type(es[i], ctx)->Ok_0;
        lemma_eval_types_elements(es, i + 1, done.push(t), ctx, k);
    }
}

/// The n-th argument of an applied constructor is the n-th type it was applied to.
pub proof fn arg_of_apply(f: TypeExprModel, args: Seq<TypeExprModel>, n: usize, ctx: ContextModel)
    requires
        n < args.len(),
        eval_type(TypeExprModel::Apply(Box::new(f), args), ctx) is Ok,
    ensures
        eval_type(TypeExprModel::Arg(Box::new(TypeExprModel::Apply(Box::new(f), args)), n), ctx)
            == eval_type(args[n as int], ctx),
{
    reveal_with_fuel(eval_type, 3);
    reveal_with_fuel(eval_types, 2);
    lemma_eval_types_elements(args, 0, Seq::empty(), ctx, n as int);
}

/// The codomain of a function type is the last of the types it is made of, and its domains
/// are the others.
pub proof fn domain_and_codomain_of_function(
    types: Seq<TypeExprModel>,
    n: usize,
    ctx: ContextModel,
)
    requires
        n + 1 < types.len(),
        eval_type(TypeExprModel::Function(types), ctx) is Ok,
    ensures
        eval_type(TypeExprModel::Codomain(Box::new(TypeExprModel::Function(types))), ctx)
            == eval_type(types.last(), ctx),
        eval_type(TypeExprModel::Domain(Box::new(TypeExprModel::Function(types)), Some(n)), ctx)
            == eval_type(types[n as int], ctx),
{
    reveal_with_fuel(eval_type, 3);
    reveal_with_fuel(eval_types, 2);
    lemma_eval_types_elements(types, 0, Seq::empty(), ctx, n as int);
    lemma_eval_types_elements(types, 0, Seq::empty(), ctx, types.len() - 1);
}

/// Negation undoes itself.
pub proof fn double_negation(f: FormulaModel, ctx: ContextModel)
    ensures
        eval_formula(
            FormulaModel::Not(Box::new(FormulaModel::Not(Box::new(f)))),
            ctx,
        ) == eval_formula(f, ctx),
{
    reveal_with_fuel(eval_formula, 3);
}

/// An implication says what the disjunction of the negated premise and the conclusion says.
pub proof fn implication_as_disjunction(p: FormulaModel, q: FormulaModel, ctx: ContextModel)
    ensures
        eval_formula(FormulaModel::Implies(Box::new(p), Box::new(q)), ctx) == eval_formula(
            FormulaModel::Or(seq![FormulaModel::Not(Box::new(p)), q]),
            ctx,
        ),
{
    reveal_with_fuel(eval_formula, 3);
    reveal_with_fuel(eval_any, 4);
    let parts = seq![FormulaModel::Not(Box::new(p)), q];
    assert(parts[0] == FormulaModel::Not(Box::new(p)));
    assert(parts[1] == q);
    assert(eval_any(parts, 2, ctx) == Ok::<bool, Seq<char>>(false));
}

/// The parts, each negated.
pub open spec fn negated(parts: Seq<FormulaModel>) -> Seq<FormulaModel> {
    parts.map_values(|f: FormulaModel| FormulaModel::Not(Box::new(f)))
}

proof fn lemma_all_and_any(parts: Seq<FormulaModel>, i: int, ctx: ContextModel)
    requires
        0 <= i <= parts.len(),
    ensures
        eval_any(negated(parts), i, ctx) == match eval_all(parts, i, ctx) {
            Ok(b) => Ok::<bool, Seq<char>>(!b),
            Err(m) => Err(m),
        },
    decreases parts.len() - i,
{
    if i < parts.len() {
        assert(negated(parts)[i] == FormulaModel::Not(Box::new(parts[i])));
        lemma_all_and_any(parts, i + 1, ctx);
        reveal_with_fuel(eval_formula, 3);
        reveal_with_fuel(eval_all, 2);
        reveal_with_fuel(eval_any, 2);
        let part = parts[i];
        assert(eval_formula(FormulaModel::Not(Box::new(part)), ctx) == match eval_formula(
            part,
            ctx,
        ) {
            Ok(b) => Ok::<bool, Seq<char>>(!b),
            Err(m) => Err(m),
        });
    }
}

/// A conjunction fails where the disjunction of the negated parts holds, and stops at the
/// same error.
pub proof fn negated_conjunction(parts: Seq<FormulaModel>, ctx: ContextModel)
    ensures
        eval_formula(FormulaModel::Not(Box::new(FormulaModel::And(parts))), ctx) == eval_formula(
            FormulaModel::Or(negated(parts)),
            ctx,
        ),
{
    lemma_all_and_any(parts, 0, ctx);
    reveal_with_fuel(eval_formula, 3);
    reveal_with_fuel(eval_all, 2);
    reveal_with_fuel(eval_any, 2);
}

} // verus!

//! What type expressions, predicates and formulas say.
use vstd::prelude::*;

use super::ast::{FormulaModel, ParamRefModel, PredicateModel, TypeExprModel};
use super::eval::{
    eval_all, eval_any, eval_formula, eval_predicate, eval_type, eval_types, field_type, has_field_named,
    has_variant_named, param_type, pattern_regex, wildcards, ContextModel,
};
use crate::data::lookup;
use crate::pattern::{is_meta, regex_escaped, regex_match};
use crate::types::{type_text, TypeInfoModel, TypeKind, TypeReprModel};

verus! {

/// Whether a type expression stands for a type.
pub open spec fn is_type(e: TypeExprModel, ctx: ContextModel, t: TypeReprModel) -> bool {
    eval_type(e, ctx) == Ok::<TypeReprModel, Seq<char>>(t)
}

/// Whether a predicate is decided, and how.
pub open spec fn says(p: PredicateModel, ctx: ContextModel, b: bool) -> bool {
    eval_formula(FormulaModel::Pred(p), ctx) == Ok::<bool, Seq<char>>(b)
}

/// Whether a formula is decided, and how.
pub open spec fn decides(f: FormulaModel, ctx: ContextModel, b: bool) -> bool {
    eval_formula(f, ctx) == Ok::<bool, Seq<char>>(b)
}

// ─── Equality ─────────────────────────────────────────────────────────────────

/// Two types that are no references are equal exactly where they are the same, with all their
/// arguments.
pub proof fn equal_types_are_the_same(
    a: TypeExprModel,
    b: TypeExprModel,
    t: TypeReprModel,
    u: TypeReprModel,
    ctx: ContextModel,
)
    requires
        is_type(a, ctx, t),
        is_type(b, ctx, u),
        !(t is Reference),
        !(u is Reference),
    ensures
        says(PredicateModel::Equals(a, b), ctx, t == u),
{
}

/// Types of one constructor that differ in an argument are not equal, though their
/// constructors are.
pub proof fn equality_sees_arguments(
    a: TypeExprModel,
    b: TypeExprModel,
    f: TypeReprModel,
    xs: Seq<TypeReprModel>,
    ys: Seq<TypeReprModel>,
    ctx: ContextModel,
)
    requires
        is_type(a, ctx, TypeReprModel::Applied(Box::new(f), xs)),
        is_type(b, ctx, TypeReprModel::Applied(Box::new(f), ys)),
        xs != ys,
    ensures
        says(PredicateModel::Equals(a, b), ctx, false),
        says(
            PredicateModel::Equals(
                TypeExprModel::Con(Box::new(a)),
                TypeExprModel::Con(Box::new(b)),
            ),
            ctx,
            true,
        ),
{
    reveal_with_fuel(eval_type, 2);
}

/// A reference to a type is equal to the type, on either side, however it is mutable.
pub proof fn references_equal_what_they_refer_to(
    a: TypeExprModel,
    b: TypeExprModel,
    t: TypeReprModel,
    mutable: bool,
    ctx: ContextModel,
)
    requires
        is_type(a, ctx, TypeReprModel::Reference { mutable, inner: Box::new(t) }),
        is_type(b, ctx, t),
    ensures
        says(PredicateModel::Equals(a, b), ctx, true),
        says(PredicateModel::Equals(b, a), ctx, true),
{
}

/// Nothing is decided of a type expression that stands for no type: the error is passed on.
pub proof fn errors_are_passed_on(a: TypeExprModel, b: TypeExprModel, ctx: ContextModel)
    ensures
        eval_type(a, ctx) matches Err(m) ==> eval_predicate(PredicateModel::Equals(a, b), ctx)
            == Err::<bool, Seq<char>>(m),
        eval_type(a, ctx) is Ok ==> (eval_type(b, ctx) matches Err(m) ==> eval_predicate(
            PredicateModel::Equals(a, b),
            ctx,
        ) == Err::<bool, Seq<char>>(m)),
        eval_type(a, ctx) matches Err(m) ==> eval_predicate(PredicateModel::Fallible(a), ctx)
            == Err::<bool, Seq<char>>(m),
{
}

// ─── Predicates on types ──────────────────────────────────────────────────────

/// The type that is being specified, and that its module defines.
pub open spec fn is_specified(ctx: ContextModel, ti: TypeInfoModel) -> bool {
    ctx.self_type == Some(ti) && lookup(ctx.type_defs, ti.name) == Some(ti)
}

/// A sum is an enum, and a product a struct; neither is a function.
pub proof fn kinds_are_told_apart(ctx: ContextModel, ti: TypeInfoModel)
    requires
        is_specified(ctx, ti),
    ensures
        says(PredicateModel::IsSum(TypeExprModel::Self_), ctx, ti.kind == TypeKind::Enum),
        says(PredicateModel::IsProduct(TypeExprModel::Self_), ctx, ti.kind == TypeKind::Struct),
        says(PredicateModel::IsFunction(TypeExprModel::Self_), ctx, false),
{
}

/// A type is a function exactly where it is one, whatever its parameters are; and every tuple
/// is a product.
pub proof fn functions_and_tuples(e: TypeExprModel, t: TypeReprModel, ctx: ContextModel)
    requires
        is_type(e, ctx, t),
    ensures
        says(PredicateModel::IsFunction(e), ctx, t is FnPointer),
        t is Tuple ==> says(PredicateModel::IsProduct(e), ctx, true),
        t is Tuple ==> says(PredicateModel::IsSum(e), ctx, false),
        t is FnPointer ==> says(PredicateModel::IsSum(e), ctx, false) && says(
            PredicateModel::IsProduct(e),
            ctx,
            false,
        ),
{
}

/// A type has the fields and the variants that its definition lists, and no others.
pub proof fn members_are_listed(ctx: ContextModel, ti: TypeInfoModel, name: Seq<char>)
    requires
        is_specified(ctx, ti),
    ensures
        says(
            PredicateModel::HasField(TypeExprModel::Self_, name),
            ctx,
            exists|i: int| 0 <= i < ti.fields.len() && (#[trigger] ti.fields[i]).name == name,
        ),
        says(
            PredicateModel::HasVariant(TypeExprModel::Self_, name),
            ctx,
            exists|i: int| 0 <= i < ti.variants.len() && (#[trigger] ti.variants[i]).name == name,
        ),
{
    assert(has_field_named(ti.fields, name) == exists|i: int|
        0 <= i < ti.fields.len() && (#[trigger] ti.fields[i]).name == name);
    assert(has_variant_named(ti.variants, name) == exists|i: int|
        0 <= i < ti.variants.len() && (#[trigger] ti.variants[i]).name == name);
}

/// A type has the methods that were extracted under its name and a dot.
pub proof fn methods_are_qualified(ctx: ContextModel, ti: TypeInfoModel, name: Seq<char>)
    requires
        is_specified(ctx, ti),
    ensures
        says(
            PredicateModel::HasMethod(TypeExprModel::Self_, name),
            ctx,
            lookup(ctx.function_defs, ti.name + "."@ + name) is Some,
        ),
{
    crate::data::lemma_key_index(ctx.function_defs, ti.name + "."@ + name);
}

/// Whether a type implements or derives a trait.
pub open spec fn implements_or_derives(ti: TypeInfoModel, name: Seq<char>) -> bool {
    ||| exists|i: int| 0 <= i < ti.trait_impls.len() && #[trigger] ti.trait_impls[i] == name
    ||| exists|i: int| 0 <= i < ti.derives.len() && #[trigger] ti.derives[i] == name
}

/// A type is a subtype of each trait that it implements or derives, and the property checks
/// are about the traits of that name.
pub proof fn traits_decide(ctx: ContextModel, ti: TypeInfoModel, name: Seq<char>)
    requires
        is_specified(ctx, ti),
    ensures
        says(
            PredicateModel::IsSubtype(TypeExprModel::Self_, name),
            ctx,
            implements_or_derives(ti, name),
        ),
        says(
            PredicateModel::Cloneable(TypeExprModel::Self_),
            ctx,
            implements_or_derives(ti, "Clone"@),
        ),
        says(
            PredicateModel::Serializable(TypeExprModel::Self_),
            ctx,
            implements_or_derives(ti, "Serialize"@),
        ),
        says(
            PredicateModel::Send(TypeExprModel::Self_),
            ctx,
            implements_or_derives(ti, "Send"@),
        ),
        says(
            PredicateModel::Sync(TypeExprModel::Self_),
            ctx,
            implements_or_derives(ti, "Sync"@),
        ),
{
    lemma_traits(ti, name);
    lemma_traits(ti, "Clone"@);
    lemma_traits(ti, "Serialize"@);
    lemma_traits(ti, "Send"@);
    lemma_traits(ti, "Sync"@);
}

proof fn lemma_traits(ti: TypeInfoModel, name: Seq<char>)
    ensures
        implements_or_derives(ti, name) <==> ti.trait_impls.contains(name) || ti.derives.contains(
            name,
        ),
{
}

/// A type can fail exactly where it is a `Result` or an `Option` of something.
pub proof fn results_and_options_can_fail(e: TypeExprModel, t: TypeReprModel, ctx: ContextModel)
    requires
        is_type(e, ctx, t),
    ensures
        t matches TypeReprModel::Applied(base, _) ==> says(
            PredicateModel::Fallible(e),
            ctx,
            *base == TypeReprModel::Named("Result"@) || *base == TypeReprModel::Named("Option"@),
        ),
        !(t is Applied) ==> says(PredicateModel::Fallible(e), ctx, false),
{
}

/// A type matches a pattern where the regular expression of the pattern matches the type as it
/// is written.
pub proof fn types_match_as_written(
    e: TypeExprModel,
    t: TypeReprModel,
    p: Seq<char>,
    b: bool,
    ctx: ContextModel,
)
    requires
        is_type(e, ctx, t),
        regex_match(
            "^"@ + wildcards(regex_escaped(p)) + "$"@,
            type_text(t),
        ) == Ok::<bool, Seq<char>>(b),
    ensures
        says(PredicateModel::Matches(e, p), ctx, b),
{
}

proof fn lemma_escaped_concat(a: Seq<char>, b: Seq<char>)
    ensures
        regex_escaped(a + b) == regex_escaped(a) + regex_escaped(b),
    decreases b.len(),
{
    if b.len() == 0 {
        assert(a + b =~= a);
        assert(regex_escaped(a) + regex_escaped(b) =~= regex_escaped(a));
    } else {
        lemma_escaped_concat(a, b.drop_last());
        assert((a + b).drop_last() =~= a + b.drop_last());
        assert(regex_escaped(a + b) =~= regex_escaped(a) + regex_escaped(b));
    }
}

proof fn lemma_wildcards_concat(a: Seq<char>, b: Seq<char>)
    ensures
        wildcards(a + b) == wildcards(a) + wildcards(b),
    decreases b.len(),
{
    if b.len() == 0 {
        assert(a + b =~= a);
        assert(wildcards(a) + wildcards(b) =~= wildcards(a));
    } else {
        lemma_wildcards_concat(a, b.drop_last());
        assert((a + b).drop_last() =~= a + b.drop_last());
        assert(wildcards(a + b) =~= wildcards(a) + wildcards(b));
    }
}

/// The expression for one character of a pattern: any characters for an underscore, and the
/// character itself for any other, behind a backslash if it has a meaning of its own.
pub open spec fn char_pattern(c: char) -> Seq<char> {
    if c == '_' {
        seq!['.', '*']
    } else if is_meta(c) {
        seq!['\\', c]
    } else {
        seq![c]
    }
}

/// The regular expression of a pattern is that of its characters, one after the other, from
/// the start of the text to its end.
pub proof fn patterns_are_read_by_character(p: Seq<char>, c: char)
    ensures
        pattern_regex(Seq::empty()) == seq!['^', '$'],
        pattern_regex(p.push(c)) == pattern_regex(p).drop_last() + char_pattern(c) + seq!['$'],
{
    reveal_strlit("^");
    reveal_strlit("$");
    reveal_strlit(".*");
    assert(regex_escaped(Seq::empty()) =~= Seq::empty());
    assert(wildcards(Seq::<char>::empty()) =~= Seq::empty());
    assert(pattern_regex(Seq::empty()) =~= seq!['^', '$']);
    let one = seq![c];
    assert(p.push(c) =~= p + one);
    lemma_escaped_concat(p, one);
    lemma_wildcards_concat(regex_escaped(p), regex_escaped(one));
    assert(one.drop_last() =~= Seq::empty());
    reveal_with_fuel(regex_escaped, 2);
    reveal_with_fuel(wildcards, 3);
    if is_meta(c) {
        let escaped = Seq::<char>::empty().push('\\').push(c);
        assert(escaped =~= seq!['\\', c]);
        assert(regex_escaped(one) == escaped);
        assert(escaped.drop_last() =~= seq!['\\']);
        assert(escaped.drop_last().drop_last() =~= Seq::empty());
        assert(wildcards(escaped) =~= char_pattern(c));
    } else {
        assert(regex_escaped(one) =~= one);
        assert(wildcards(one) =~= char_pattern(c));
    }
    assert(pattern_regex(p).drop_last() =~= "^"@ + wildcards(regex_escaped(p)));
    assert(pattern_regex(p.push(c)) =~= pattern_regex(p).drop_last() + char_pattern(c) + seq!['$']);
}

// ─── Type expressions ─────────────────────────────────────────────────────────

proof fn lemma_first_field(ti: TypeInfoModel, name: Seq<char>, from: int, i: int)
    requires
        0 <= from <= i < ti.fields.len(),
        ti.fields[i].name == name,
        forall|j: int| from <= j < i ==> (#[trigger] ti.fields[j]).name != name,
    ensures
        field_type(ti.fields, name, from) == Some(ti.fields[i].type_repr),
    decreases i - from,
{
    if from < i {
        lemma_first_field(ti, name, from + 1, i);
    }
}

proof fn lemma_no_field(ti: TypeInfoModel, name: Seq<char>, from: int)
    requires
        0 <= from <= ti.fields.len(),
        forall|j: int| from <= j < ti.fields.len() ==> (#[trigger] ti.fields[j]).name != name,
    ensures
        field_type(ti.fields, name, from) is None,
    decreases ti.fields.len() - from,
{
    if from < ti.fields.len() {
        lemma_no_field(ti, name, from + 1);
    }
}

/// The type of a field is the one that the definition gives to the first field of that name;
/// where there is none, there is no type.
pub proof fn fields_have_their_types(ctx: ContextModel, ti: TypeInfoModel, name: Seq<char>, i: int)
    requires
        ctx.self_type == Some(ti),
    ensures
        0 <= i < ti.fields.len() && ti.fields[i].name == name && (forall|j: int|
            0 <= j < i ==> (#[trigger] ti.fields[j]).name != name) ==> is_type(
            TypeExprModel::Field(name),
            ctx,
            ti.fields[i].type_repr,
        ),
        (forall|j: int| 0 <= j < ti.fields.len() ==> (#[trigger] ti.fields[j]).name != name)
            ==> eval_type(TypeExprModel::Field(name), ctx) is Err,
{
    if 0 <= i < ti.fields.len() && ti.fields[i].name == name && (forall|j: int|
        0 <= j < i ==> (#[trigger] ti.fields[j]).name != name) {
        lemma_first_field(ti, name, 0, i);
    }
    if forall|j: int| 0 <= j < ti.fields.len() ==> (#[trigger] ti.fields[j]).name != name {
        lemma_no_field(ti, name, 0);
    }
}

proof fn lemma_first_param(ctx: ContextModel, name: Seq<char>, from: int, i: int)
    requires
        ctx.function is Some,
        0 <= from <= i < ctx.function->Some_0.params.len(),
        ctx.function->Some_0.params[i].name == Some(name),
        forall|j: int|
            from <= j < i ==> (#[trigger] ctx.function->Some_0.params[j]).name != Some(name),
    ensures
        param_type(ctx.function->Some_0.params, name, from) == Some(
            ctx.function->Some_0.params[i].type_repr,
        ),
    decreases i - from,
{
    if from < i {
        lemma_first_param(ctx, name, from + 1, i);
    }
}

/// The type of a parameter is the one that the function gives it, whether it is asked for by
/// its position or by its name; behind the last there is none.
pub proof fn parameters_have_their_types(ctx: ContextModel, name: Seq<char>, i: usize)
    requires
        ctx.function is Some,
    ensures
        i < ctx.function->Some_0.params.len() ==> is_type(
            TypeExprModel::Param(ParamRefModel::Index(i)),
            ctx,
            ctx.function->Some_0.params[i as int].type_repr,
        ),
        i >= ctx.function->Some_0.params.len() ==> eval_type(
            TypeExprModel::Param(ParamRefModel::Index(i)),
            ctx,
        ) is Err,
        i < ctx.function->Some_0.params.len() && ctx.function->Some_0.params[i as int].name == Some(
            name,
        ) && (forall|j: int|
            0 <= j < i ==> (#[trigger] ctx.function->Some_0.params[j]).name != Some(name))
            ==> is_type(
            TypeExprModel::Param(ParamRefModel::Name(name)),
            ctx,
            ctx.function->Some_0.params[i as int].type_repr,
        ),
{
    let params = ctx.function->Some_0.params;
    if i < params.len() && params[i as int].name == Some(name) && (forall|j: int|
        0 <= j < i ==> (#[trigger] params[j]).name != Some(name)) {
        lemma_first_param(ctx, name, 0, i as int);
    }
}

/// What a function returns is a type exactly where the function has a return type.
pub proof fn return_types_are_those_of_the_function(ctx: ContextModel)
    requires
        ctx.function is Some,
    ensures
        ctx.function->Some_0.return_type matches Some(t) ==> is_type(
            TypeExprModel::Return,
            ctx,
            t,
        ),
        ctx.function->Some_0.return_type is None ==> eval_type(TypeExprModel::Return, ctx) is Err,
{
}

/// A constructor is a type without its arguments, and each argument is found by its position;
/// a type without arguments is its own constructor.
pub proof fn types_are_taken_apart(
    e: TypeExprModel,
    f: TypeReprModel,
    args: Seq<TypeReprModel>,
    n: usize,
    ctx: ContextModel,
)
    ensures
        is_type(e, ctx, TypeReprModel::Applied(Box::new(f), args)) ==> is_type(
            TypeExprModel::Con(Box::new(e)),
            ctx,
            f,
        ),
        is_type(e, ctx, TypeReprModel::Applied(Box::new(f), args)) && n < args.len() ==> is_type(
            TypeExprModel::Arg(Box::new(e), n),
            ctx,
            args[n as int],
        ),
        is_type(e, ctx, TypeReprModel::Applied(Box::new(f), args)) && n >= args.len()
            ==> eval_type(TypeExprModel::Arg(Box::new(e), n), ctx) is Err,
        is_type(e, ctx, f) && !(f is Applied) ==> is_type(TypeExprModel::Con(Box::new(e)), ctx, f)
            && eval_type(TypeExprModel::Arg(Box::new(e), n), ctx) is Err,
{
    reveal_with_fuel(eval_type, 2);
}

/// The parameters of a function type are found by their positions, the first one where none is
/// given, and what it returns behind them.
pub proof fn function_types_are_taken_apart(
    e: TypeExprModel,
    params: Seq<TypeReprModel>,
    ret: TypeReprModel,
    n: usize,
    ctx: ContextModel,
)
    requires
        is_type(e, ctx, TypeReprModel::FnPointer { params, ret: Box::new(ret) }),
    ensures
        is_type(TypeExprModel::Codomain(Box::new(e)), ctx, ret),
        n < params.len() ==> is_type(
            TypeExprModel::Domain(Box::new(e), Some(n)),
            ctx,
            params[n as int],
        ),
        n >= params.len() ==> eval_type(TypeExprModel::Domain(Box::new(e), Some(n)), ctx) is Err,
        params.len() > 0 ==> is_type(TypeExprModel::Domain(Box::new(e), None), ctx, params[0]),
{
    reveal_with_fuel(eval_type, 2);
}

/// Whether expressions stand for types, one for one.
pub open spec fn are_types(
    es: Seq<TypeExprModel>,
    ctx: ContextModel,
    ts: Seq<TypeReprModel>,
) -> bool {
    es.len() == ts.len() && forall|i: int|
        0 <= i < es.len() ==> eval_type(#[trigger] es[i], ctx) == Ok::<TypeReprModel, Seq<char>>(
            ts[i],
        )
}

proof fn lemma_types(
    es: Seq<TypeExprModel>,
    i: int,
    done: Seq<TypeReprModel>,
    ts: Seq<TypeReprModel>,
    ctx: ContextModel,
)
    requires
        0 <= i <= es.len(),
        are_types(es, ctx, ts),
        done == ts.take(i),
    ensures
        eval_types(es, i, done, ctx) == Ok::<Seq<TypeReprModel>, Seq<char>>(ts),
    decreases es.len() - i,
{
    if i < es.len() {
        assert(done.push(ts[i]) =~= ts.take(i + 1));
        lemma_types(es, i + 1, done.push(ts[i]), ts, ctx);
    } else {
        assert(ts.take(i) =~= ts);
    }
}

/// Types are put together from their parts in order: a constructor with its arguments, a function
/// with its parameters and, behind them, what it returns, a sum and a product with their members.
pub proof fn types_are_put_together(
    e: TypeExprModel,
    f: TypeReprModel,
    es: Seq<TypeExprModel>,
    ts: Seq<TypeReprModel>,
    ctx: ContextModel,
)
    requires
        is_type(e, ctx, f),
        are_types(es, ctx, ts),
    ensures
        is_type(
            TypeExprModel::Apply(Box::new(e), es),
            ctx,
            TypeReprModel::Applied(Box::new(f), ts),
        ),
        is_type(
            TypeExprModel::Function(es.push(e)),
            ctx,
            TypeReprModel::FnPointer { params: ts, ret: Box::new(f) },
        ),
        is_type(TypeExprModel::Product(es), ctx, TypeReprModel::Tuple(ts)),
        is_type(TypeExprModel::Sum(es), ctx, TypeReprModel::Tuple(ts)),
        eval_type(TypeExprModel::Function(Seq::empty()), ctx) is Err,
{
    let none = Seq::<TypeReprModel>::empty();
    assert(ts.take(0) =~= none);
    lemma_types(es, 0, none, ts, ctx);
    let all = es.push(e);
    let of_all = ts.push(f);
    assert(are_types(all, ctx, of_all)) by {
        assert forall|i: int| 0 <= i < all.len() implies eval_type(#[trigger] all[i], ctx) == Ok::<
            TypeReprModel,
            Seq<char>,
        >(of_all[i]) by {
            if i < es.len() {
                assert(all[i] == es[i]);
            }
        }
    }
    assert(of_all.take(0) =~= none);
    lemma_types(all, 0, none, of_all, ctx);
    assert(of_all.drop_last() =~= ts);
    reveal_with_fuel(eval_type, 2);
}

/// `Self` is the type that is being specified, by its name.
pub proof fn self_is_the_specified_type(ctx: ContextModel, ti: TypeInfoModel)
    requires
        ctx.self_type == Some(ti),
    ensures
        is_type(TypeExprModel::Self_, ctx, TypeReprModel::Named(ti.name)),
{
}

/// A type that is written stands for itself.
pub proof fn literals_stand_for_themselves(t: TypeReprModel, ctx: ContextModel)
    ensures
        is_type(TypeExprModel::Literal(t), ctx, t),
{
}

// ─── Formulas ─────────────────────────────────────────────────────────────────

proof fn lemma_all(parts: Seq<FormulaModel>, i: int, ctx: ContextModel)
    requires
        0 <= i <= parts.len(),
    ensures
        eval_all(parts, i, ctx) == Ok::<bool, Seq<char>>(true) <==> forall|k: int|
            i <= k < parts.len() ==> decides(#[trigger] parts[k], ctx, true),
        eval_all(parts, i, ctx) == Ok::<bool, Seq<char>>(false) <==> exists|k: int|
            i <= k < parts.len() && decides(#[trigger] parts[k], ctx, false) && forall|j: int|
                i <= j < k ==> decides(#[trigger] parts[j], ctx, true),
    decreases parts.len() - i,
{
    if i < parts.len() {
        lemma_all(parts, i + 1, ctx);
        reveal_with_fuel(eval_all, 2);
        if decides(parts[i], ctx, true) {
            if eval_all(parts, i + 1, ctx) == Ok::<bool, Seq<char>>(false) {
                let k = choose|k: int|
                    i + 1 <= k < parts.len() && decides(#[trigger] parts[k], ctx, false) && forall|
                        j: int,
                    |
                        i + 1 <= j < k ==> decides(#[trigger] parts[j], ctx, true);
                assert(decides(parts[k], ctx, false));
            }
        } else if decides(parts[i], ctx, false) {
            assert(decides(parts[i], ctx, false));
        } else {
            assert(!decides(parts[i], ctx, true));
        }
    }
}

/// A conjunction holds exactly where all its parts do, and fails exactly where one part fails
/// and all parts before it hold.
pub proof fn conjunctions_hold_where_all_parts_do(parts: Seq<FormulaModel>, ctx: ContextModel)
    ensures
        decides(FormulaModel::And(parts), ctx, true) <==> forall|k: int|
            0 <= k < parts.len() ==> decides(#[trigger] parts[k], ctx, true),
        decides(FormulaModel::And(parts), ctx, false) <==> exists|k: int|
            0 <= k < parts.len() && decides(#[trigger] parts[k], ctx, false) && forall|j: int|
                0 <= j < k ==> decides(#[trigger] parts[j], ctx, true),
{
    reveal_with_fuel(eval_formula, 2);
    lemma_all(parts, 0, ctx);
}

proof fn lemma_any(parts: Seq<FormulaModel>, i: int, ctx: ContextModel)
    requires
        0 <= i <= parts.len(),
    ensures
        eval_any(parts, i, ctx) == Ok::<bool, Seq<char>>(false) <==> forall|k: int|
            i <= k < parts.len() ==> decides(#[trigger] parts[k], ctx, false),
        eval_any(parts, i, ctx) == Ok::<bool, Seq<char>>(true) <==> exists|k: int|
            i <= k < parts.len() && decides(#[trigger] parts[k], ctx, true) && forall|j: int|
                i <= j < k ==> decides(#[trigger] parts[j], ctx, false),
    decreases parts.len() - i,
{
    if i < parts.len() {
        lemma_any(parts, i + 1, ctx);
        reveal_with_fuel(eval_any, 2);
        if decides(parts[i], ctx, false) {
            if eval_any(parts, i + 1, ctx) == Ok::<bool, Seq<char>>(true) {
                let k = choose|k: int|
                    i + 1 <= k < parts.len() && decides(#[trigger] parts[k], ctx, true) && forall|
                        j: int,
                    |
                        i + 1 <= j < k ==> decides(#[trigger] parts[j], ctx, false);
                assert(decides(parts[k], ctx, true));
            }
        } else if decides(parts[i], ctx, true) {
            assert(decides(parts[i], ctx, true));
        } else {
            assert(!decides(parts[i], ctx, false));
        }
    }
}

/// A disjunction fails exactly where all its parts do, and holds exactly where one part holds
/// and all parts before it fail.
pub proof fn disjunctions_hold_where_one_part_does(parts: Seq<FormulaModel>, ctx: ContextModel)
    ensures
        decides(FormulaModel::Or(parts), ctx, false) <==> forall|k: int|
            0 <= k < parts.len() ==> decides(#[trigger] parts[k], ctx, false),
        decides(FormulaModel::Or(parts), ctx, true) <==> exists|k: int|
            0 <= k < parts.len() && decides(#[trigger] parts[k], ctx, true) && forall|j: int|
                0 <= j < k ==> decides(#[trigger] parts[j], ctx, false),
{
    reveal_with_fuel(eval_formula, 2);
    lemma_any(parts, 0, ctx);
}

/// A negation holds where the formula fails, and the other way round.
pub proof fn negations_hold_where_formulas_fail(f: FormulaModel, ctx: ContextModel, b: bool)
    ensures
        decides(FormulaModel::Not(Box::new(f)), ctx, b) <==> decides(f, ctx, !b),
{
    reveal_with_fuel(eval_formula, 2);
}

/// An implication holds where its premise fails, and says what its conclusion says where its
/// premise holds.
pub proof fn implications_follow_their_premises(
    p: FormulaModel,
    q: FormulaModel,
    ctx: ContextModel,
    b: bool,
)
    ensures
        decides(p, ctx, false) ==> decides(
            FormulaModel::Implies(Box::new(p), Box::new(q)),
            ctx,
            true,
        ),
        decides(p, ctx, true) ==> (decides(FormulaModel::Implies(Box::new(p), Box::new(q)), ctx, b)
            <==> decides(q, ctx, b)),
{
    reveal_with_fuel(eval_formula, 2);
}

} // verus!

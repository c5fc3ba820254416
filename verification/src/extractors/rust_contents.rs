//! What an extracted Rust module holds of its source file.
use vstd::prelude::*;

use super::rust::{
    arg_texts, fields_of, flattened, flattened_group, function_info_of, generics_of, is_own_root,
    is_test_attribute, is_test_module, items_module, last_name, path_joined, path_name, qualified,
    repr_of, reprs_of, root_crate, root_of, signature_text, variants_of, with_all_traits,
    with_item, with_items, with_member, with_members, with_roots, with_state, with_trait_impl,
    with_traits,
};
use super::rust_syntax::{
    RsArgModel, RsAttributeModel, RsFieldsModel, RsGenericModel, RsItemModel, RsMemberModel,
    RsSignatureModel, RsTypeModel, RsUseModel,
};
use super::{new_module, ExtractedModuleModel};
use crate::data::{
    has_key, lemma_key_index, lemma_with_name, lookup, lookup_after_insert, lookup_of_other_key,
    with_entry, with_name,
};
use crate::text;
use crate::type_formula::ast::TypeExprModel;
use crate::type_formula::eval::{eval_type, ContextModel};
use crate::types::{
    type_text, type_text_of_lists, type_texts, GenericParamModel, TypeInfoModel, TypeKind,
    TypeReprModel, Visibility,
};

verus! {

// ─── Types ────────────────────────────────────────────────────────────────────

/// How a type is written, by its syntax. Arguments that are no types are left out.
pub open spec fn rust_text(t: RsTypeModel) -> Seq<char>
    decreases t, 0int,
{
    match t {
        RsTypeModel::Path(segments) => joined_path(segments),
        RsTypeModel::Generic { segments, args } => {
            let texts = rust_texts(args, args.len() as int);
            if segments.len() == 0 || texts.len() == 0 {
                joined_path(segments)
            } else {
                joined_path(segments) + "<"@ + text::join(texts, ", "@) + ">"@
            }
        },
        RsTypeModel::Callable { segments, params, ret } => if segments.len() == 0 {
            joined_path(segments)
        } else {
            "fn("@ + text::join(rust_texts(params, params.len() as int), ", "@) + ") -> "@ + (
            match ret {
                Some(r) => rust_text(*r),
                None => "()"@,
            })
        },
        RsTypeModel::Reference { mutable, inner } => if mutable {
            "&mut "@ + rust_text(*inner)
        } else {
            "&"@ + rust_text(*inner)
        },
        RsTypeModel::Tuple(elems) => if elems.len() == 0 {
            "()"@
        } else {
            "("@ + text::join(rust_texts(elems, elems.len() as int), ", "@) + ")"@
        },
        RsTypeModel::Slice(inner) => "["@ + rust_text(*inner) + "]"@,
        RsTypeModel::Array(inner, n) => "["@ + rust_text(*inner) + "; "@ + text::decimal(
            match n {
                Some(n) => n as nat,
                None => 0,
            },
        ) + "]"@,
        RsTypeModel::BareFn { params, ret } => "fn("@ + text::join(
            rust_texts(params, params.len() as int),
            ", "@,
        ) + ") -> "@ + (match ret {
            Some(r) => rust_text(*r),
            None => "()"@,
        }),
        RsTypeModel::Paren(inner) => rust_text(*inner),
        RsTypeModel::Infer => "_"@,
        RsTypeModel::Other(s) => s,
        RsTypeModel::NotType => "()"@,
    }
}

/// How the types among the first `k` of a list are written.
pub open spec fn rust_texts(ts: Seq<RsTypeModel>, k: int) -> Seq<Seq<char>>
    decreases ts, k,
{
    if k <= 0 || k > ts.len() {
        Seq::empty()
    } else if ts[k - 1] is NotType {
        rust_texts(ts, k - 1)
    } else {
        rust_texts(ts, k - 1).push(rust_text(ts[k - 1]))
    }
}

/// The names of a path with `::` between them.
pub open spec fn joined_path(segments: Seq<Seq<char>>) -> Seq<char> {
    if segments.len() == 0 {
        "()"@
    } else {
        text::join(segments, "::"@)
    }
}

proof fn lemma_return_text(ret: Option<Box<RsTypeModel>>)
    requires
        ret matches Some(r) ==> type_text(repr_of(*r)) == rust_text(*r),
    ensures
        type_text(
            match ret {
                Some(r) => repr_of(*r),
                None => TypeReprModel::Unit,
            },
        ) == (match ret {
            Some(r) => rust_text(*r),
            None => "()"@,
        }),
{
}

/// The language-neutral form of a type is written as the type is.
pub proof fn types_stay_as_they_are_written(t: RsTypeModel)
    ensures
        type_text(repr_of(t)) == rust_text(t),
    decreases t, 0int,
{
    type_text_of_lists(repr_of(t));
    reveal_with_fuel(repr_of, 2);
    reveal_with_fuel(rust_text, 2);
    match t {
        RsTypeModel::Generic { segments, args } => {
            lemma_texts_stay(args, args.len() as int);
            let reprs = reprs_of(args, args.len() as int);
            if segments.len() > 0 && reprs.len() > 0 {
                assert(type_text(TypeReprModel::Named(path_name(segments))) == joined_path(
                    segments,
                ));
            }
        },
        RsTypeModel::Callable { segments, params, ret } => {
            lemma_texts_stay(params, params.len() as int);
            if let Some(r) = ret {
                types_stay_as_they_are_written(*r);
            }
            lemma_return_text(ret);
        },
        RsTypeModel::Reference { mutable, inner } => {
            types_stay_as_they_are_written(*inner);
        },
        RsTypeModel::Tuple(elems) => {
            lemma_texts_stay(elems, elems.len() as int);
        },
        RsTypeModel::Slice(inner) => {
            types_stay_as_they_are_written(*inner);
        },
        RsTypeModel::Array(inner, n) => {
            types_stay_as_they_are_written(*inner);
        },
        RsTypeModel::BareFn { params, ret } => {
            lemma_texts_stay(params, params.len() as int);
            if let Some(r) = ret {
                types_stay_as_they_are_written(*r);
            }
            lemma_return_text(ret);
        },
        RsTypeModel::Paren(inner) => {
            types_stay_as_they_are_written(*inner);
        },
        _ => {},
    }
}

proof fn lemma_texts_stay(ts: Seq<RsTypeModel>, k: int)
    ensures
        type_texts(reprs_of(ts, k)) == rust_texts(ts, k),
        reprs_of(ts, k).len() == rust_texts(ts, k).len(),
    decreases ts, k,
{
    reveal_with_fuel(type_texts, 2);
    reveal_with_fuel(reprs_of, 2);
    reveal_with_fuel(rust_texts, 2);
    if 0 < k <= ts.len() {
        lemma_texts_stay(ts, k - 1);
        if !(ts[k - 1] is NotType) {
            types_stay_as_they_are_written(ts[k - 1]);
        }
    }
    assert(type_texts(reprs_of(ts, k)) =~= rust_texts(ts, k)) by {
        if 0 < k <= ts.len() {
            let before = reprs_of(ts, k - 1);
            assert forall|i: int| 0 <= i < before.len() implies #[trigger] type_texts(before)[i]
                == type_text(before[i]) by {}
        }
    }
}

// ─── Signatures ───────────────────────────────────────────────────────────────

/// A function returns the type that stands behind its arrow, and has no return type exactly
/// where it has no arrow; so `return` can be evaluated exactly where there is an arrow.
pub proof fn functions_have_their_return_types(sig: RsSignatureModel, ctx: ContextModel)
    requires
        ctx.function == Some(function_info_of(sig)),
    ensures
        sig.output matches Some((t, _)) ==> function_info_of(sig).return_type == Some(repr_of(t))
            && eval_type(TypeExprModel::Return, ctx) == Ok::<TypeReprModel, Seq<char>>(repr_of(t)),
        sig.output is None ==> function_info_of(sig).return_type is None && eval_type(
            TypeExprModel::Return,
            ctx,
        ) is Err,
        function_info_of(sig).name == sig.name,
{
}

/// A function has the parameters that its signature declares, in order, with their names and
/// types; the receiver is `self`, of the type `Self` or a reference to it.
pub proof fn functions_have_their_parameters(sig: RsSignatureModel, i: int)
    ensures
        function_info_of(sig).params.len() == sig.inputs.len(),
        0 <= i < sig.inputs.len() ==> ({
            let p = function_info_of(sig).params[i];
            match sig.inputs[i] {
                RsArgModel::Typed { name, ty, written } => {
                    &&& p.name == name
                    &&& p.type_repr == repr_of(ty)
                    &&& !p.is_receiver
                },
                RsArgModel::Receiver { reference, mutable } => {
                    &&& p.name == Some("self"@)
                    &&& p.is_receiver
                    &&& type_text(p.type_repr) == (if !reference {
                        "Self"@
                    } else if mutable {
                        "&mut "@ + "Self"@
                    } else {
                        "&"@ + "Self"@
                    })
                },
            }
        }),
{
    reveal_with_fuel(type_text, 3);
}

/// A signature is written with its arguments between parentheses and its return type behind an
/// arrow, if it has one.
pub proof fn signatures_are_written_in_full(sig: RsSignatureModel)
    ensures
        sig.output is None ==> signature_text(sig) == "("@ + text::join(
            arg_texts(sig.inputs),
            ", "@,
        ) + ")"@,
        sig.output matches Some((_, written)) ==> signature_text(sig) == "("@ + text::join(
            arg_texts(sig.inputs),
            ", "@,
        ) + ")"@ + " -> "@ + written,
        arg_texts(sig.inputs).len() == sig.inputs.len(),
        forall|i: int|
            0 <= i < sig.inputs.len() ==> (sig.inputs[i] matches RsArgModel::Typed { written, .. }
                ==> #[trigger] arg_texts(sig.inputs)[i] == written),
        forall|i: int|
            0 <= i < sig.inputs.len() ==> (sig.inputs[i] matches RsArgModel::Receiver {
                reference,
                mutable,
            } ==> #[trigger] arg_texts(sig.inputs)[i] == (if !reference {
                "self"@
            } else if mutable {
                "&mut self"@
            } else {
                "&self"@
            })),
{
}

/// The generic parameters of a function or a type are its type parameters, with their bounds.
pub proof fn type_parameters_are_kept(gs: Seq<RsGenericModel>, k: int, g: GenericParamModel)
    requires
        0 <= k <= gs.len(),
    ensures
        generics_of(gs, k).contains(g) <==> exists|i: int|
            0 <= i < k && #[trigger] gs[i] == RsGenericModel::Type(g.name, g.bounds),
    decreases k,
{
    if k > 0 {
        type_parameters_are_kept(gs, k - 1, g);
        let before = generics_of(gs, k - 1);
        let now = generics_of(gs, k);
        if let RsGenericModel::Type(name, bounds) = gs[k - 1] {
            assert(now[before.len() as int] == (GenericParamModel { name, bounds }));
            if before.contains(g) {
                let i = choose|i: int| 0 <= i < before.len() && before[i] == g;
                assert(now[i] == g);
            }
            if now.contains(g) {
                let i = choose|i: int| 0 <= i < now.len() && now[i] == g;
                if i < before.len() {
                    assert(before[i] == g);
                } else {
                    assert(gs[k - 1] == RsGenericModel::Type(g.name, g.bounds));
                }
            }
        }
        if exists|i: int|
            0 <= i < k && #[trigger] gs[i] == RsGenericModel::Type(g.name, g.bounds) {
            let i = choose|i: int|
                0 <= i < k && #[trigger] gs[i] == RsGenericModel::Type(g.name, g.bounds);
            if i < k - 1 {
                assert(gs[i] == RsGenericModel::Type(g.name, g.bounds));
            }
        }
    } else {
        assert(!generics_of(gs, k).contains(g));
    }
}

// ─── Items ────────────────────────────────────────────────────────────────────

/// A function is found under its name: its signature as it is written, and its types.
pub proof fn functions_are_described(
    m: ExtractedModuleModel,
    public: bool,
    signature: RsSignatureModel,
    other: Seq<char>,
)
    ensures
        ({
            let after = with_item(m, RsItemModel::Fn { public, signature });
            &&& lookup(after.function_info, signature.name) == Some(function_info_of(signature))
            &&& lookup(after.function_signatures, signature.name) == Some(
                signature_text(signature),
            )
            &&& other != signature.name ==> lookup(after.function_info, other) == lookup(
                m.function_info,
                other,
            ) && lookup(after.function_signatures, other) == lookup(m.function_signatures, other)
            &&& public ==> after.public_functions == m.public_functions.push(signature.name)
                && after.private_functions == m.private_functions
            &&& !public ==> after.private_functions == m.private_functions.push(signature.name)
                && after.public_functions == m.public_functions
            &&& after.type_definitions == m.type_definitions
            &&& after.imports == m.imports
            &&& after.state_variables == m.state_variables
        }),
{
    let name = signature.name;
    lookup_after_insert(m.function_info, name, function_info_of(signature));
    lookup_after_insert(m.function_signatures, name, signature_text(signature));
    if other != name {
        lookup_of_other_key(m.function_info, name, function_info_of(signature), other);
        lookup_of_other_key(m.function_signatures, name, signature_text(signature), other);
    }
}

/// A method is found under the name of its type, a dot and its own name.
pub proof fn methods_are_described(
    m: ExtractedModuleModel,
    owner: Seq<Seq<char>>,
    public: bool,
    signature: RsSignatureModel,
)
    requires
        owner.len() > 0,
    ensures
        ({
            let name = owner.last() + "."@ + signature.name;
            let after = with_member(
                m,
                Some(owner),
                RsMemberModel::Method { public, signature },
            );
            &&& lookup(after.function_info, name) == Some(function_info_of(signature))
            &&& lookup(after.function_signatures, name) == Some(signature_text(signature))
            &&& public ==> after.public_functions.contains(name) && after.private_functions
                == m.private_functions
            &&& !public ==> after.public_functions == m.public_functions && (
            m.public_functions.contains(name) || after.private_functions.contains(name))
        }),
{
    let name = owner.last() + "."@ + signature.name;
    lookup_after_insert(m.function_info, name, function_info_of(signature));
    lookup_after_insert(m.function_signatures, name, signature_text(signature));
    lemma_with_name(m.public_functions, name);
    lemma_with_name(m.private_functions, name);
}

/// A struct is found under its name, as a struct with its fields; so is an enum, with its
/// variants, a trait and an alias.
pub proof fn types_are_described(m: ExtractedModuleModel, item: RsItemModel)
    ensures
        ({
            let defs = with_item(m, item).type_definitions;
            match item {
                RsItemModel::Struct { name, generics, fields, attributes } => lookup(
                    defs,
                    name,
                ) matches Some(ti) && ti.name == name && ti.kind == TypeKind::Struct && ti.fields
                    == fields_of(fields, false) && ti.variants.len() == 0,
                RsItemModel::Enum { name, generics, variants, attributes } => lookup(
                    defs,
                    name,
                ) matches Some(ti) && ti.name == name && ti.kind == TypeKind::Enum
                    && ti.fields.len() == 0 && ti.variants.len() == variants.len() && forall|i: int|
                    0 <= i < variants.len() ==> (#[trigger] ti.variants[i]).name == variants[i].0
                        && ti.variants[i].fields == fields_of(variants[i].1, true),
                RsItemModel::Trait { name, generics, supertraits } => lookup(
                    defs,
                    name,
                ) matches Some(ti) && ti.name == name && ti.kind == TypeKind::Trait
                    && ti.trait_impls == supertraits,
                RsItemModel::TypeAlias { name, generics } => lookup(
                    defs,
                    name,
                ) matches Some(ti) && ti.name == name && ti.kind == TypeKind::TypeAlias,
                _ => true,
            }
        }),
{
    match item {
        RsItemModel::Struct { name, generics, fields, attributes } => {
            let ti = lookup(with_item(m, item).type_definitions, name);
            let info = TypeInfoModel {
                name,
                kind: TypeKind::Struct,
                generics: generics_of(generics, generics.len() as int),
                fields: fields_of(fields, false),
                variants: Seq::empty(),
                trait_impls: Seq::empty(),
                derives: super::rust::derives_of(attributes, attributes.len() as int),
            };
            lookup_after_insert(m.type_definitions, name, info);
        },
        RsItemModel::Enum { name, generics, variants, attributes } => {
            let info = TypeInfoModel {
                name,
                kind: TypeKind::Enum,
                generics: generics_of(generics, generics.len() as int),
                fields: Seq::empty(),
                variants: variants_of(variants),
                trait_impls: Seq::empty(),
                derives: super::rust::derives_of(attributes, attributes.len() as int),
            };
            lookup_after_insert(m.type_definitions, name, info);
        },
        RsItemModel::Trait { name, generics, supertraits } => {
            let info = TypeInfoModel {
                name,
                kind: TypeKind::Trait,
                generics: generics_of(generics, generics.len() as int),
                fields: Seq::empty(),
                variants: Seq::empty(),
                trait_impls: supertraits,
                derives: Seq::empty(),
            };
            lookup_after_insert(m.type_definitions, name, info);
        },
        RsItemModel::TypeAlias { name, generics } => {
            let info = TypeInfoModel {
                name,
                kind: TypeKind::TypeAlias,
                generics: generics_of(generics, generics.len() as int),
                fields: Seq::empty(),
                variants: Seq::empty(),
                trait_impls: Seq::empty(),
                derives: Seq::empty(),
            };
            lookup_after_insert(m.type_definitions, name, info);
        },
        _ => {},
    }
}

/// Fields keep their order, their names and their types, those of tuples by their positions;
/// they are public where they are declared so, and always in variants.
pub proof fn fields_are_kept(fields: RsFieldsModel, all_public: bool, i: int)
    ensures
        ({
            let kept = fields_of(fields, all_public);
            match fields {
                RsFieldsModel::Named(fs) => kept.len() == fs.len() && (0 <= i < fs.len() ==> (
                fs[i].name matches Some(n) ==> kept[i].name == n) && kept[i].type_repr == repr_of(
                    fs[i].ty,
                ) && (kept[i].visibility == Visibility::Public <==> fs[i].public || all_public)),
                RsFieldsModel::Unnamed(fs) => kept.len() == fs.len() && (0 <= i < fs.len()
                    ==> kept[i].name == text::decimal(i as nat) && kept[i].type_repr == repr_of(
                    fs[i].ty,
                ) && (kept[i].visibility == Visibility::Public <==> fs[i].public || all_public)),
                RsFieldsModel::Unit => kept.len() == 0,
            }
        }),
{
}

/// The traits that attributes derive are the last names of the paths that `derive` lists.
pub proof fn derived_traits_are_listed(
    attributes: Seq<super::rust_syntax::RsAttributeModel>,
    k: int,
    x: Seq<char>,
)
    requires
        0 <= k <= attributes.len(),
    ensures
        super::rust::derives_of(attributes, k).contains(x) <==> exists|i: int|
            0 <= i < k && derives_trait(#[trigger] attributes[i], x),
    decreases k,
{
    if k > 0 {
        derived_traits_are_listed(attributes, k - 1, x);
        let before = super::rust::derives_of(attributes, k - 1);
        let now = super::rust::derives_of(attributes, k);
        let a = attributes[k - 1];
        let added = match a.paths {
            Some(paths) => if a.ident == Some("derive"@) {
                super::rust::last_names(paths, paths.len() as int)
            } else {
                Seq::empty()
            },
            None => Seq::empty(),
        };
        assert(now =~= before + added);
        lemma_in_either(before, added, x);
        if let Some(paths) = a.paths {
            lemma_last_names(paths, paths.len() as int, x);
        }
        assert(added.contains(x) <==> derives_trait(a, x));
        if exists|i: int| 0 <= i < k && derives_trait(#[trigger] attributes[i], x) {
            let i = choose|i: int| 0 <= i < k && derives_trait(#[trigger] attributes[i], x);
            if i < k - 1 {
                assert(derives_trait(attributes[i], x));
            }
        }
        if exists|i: int| 0 <= i < k - 1 && derives_trait(#[trigger] attributes[i], x) {
            let i = choose|i: int| 0 <= i < k - 1 && derives_trait(#[trigger] attributes[i], x);
            assert(derives_trait(attributes[i], x));
        }
    } else {
        assert(!super::rust::derives_of(attributes, k).contains(x));
    }
}

/// Whether an attribute derives a trait.
pub open spec fn derives_trait(a: super::rust_syntax::RsAttributeModel, x: Seq<char>) -> bool {
    &&& a.ident == Some("derive"@)
    &&& a.paths is Some
    &&& exists|j: int|
        0 <= j < a.paths->Some_0.len() && (#[trigger] a.paths->Some_0[j]).len() > 0
            && a.paths->Some_0[j].last() == x
}

proof fn lemma_last_names(paths: Seq<Seq<Seq<char>>>, k: int, x: Seq<char>)
    requires
        0 <= k <= paths.len(),
    ensures
        super::rust::last_names(paths, k).contains(x) <==> exists|j: int|
            0 <= j < k && (#[trigger] paths[j]).len() > 0 && paths[j].last() == x,
    decreases k,
{
    if k > 0 {
        lemma_last_names(paths, k - 1, x);
        let before = super::rust::last_names(paths, k - 1);
        let now = super::rust::last_names(paths, k);
        if paths[k - 1].len() > 0 {
            assert(now =~= before + seq![paths[k - 1].last()]);
            assert(seq![paths[k - 1].last()][0] == paths[k - 1].last());
            lemma_in_either(before, seq![paths[k - 1].last()], x);
        }
        if exists|j: int| 0 <= j < k && (#[trigger] paths[j]).len() > 0 && paths[j].last() == x {
            let j = choose|j: int|
                0 <= j < k && (#[trigger] paths[j]).len() > 0 && paths[j].last() == x;
            if j < k - 1 {
                assert(paths[j].len() > 0);
            }
        }
        if exists|j: int| 0 <= j < k - 1 && (#[trigger] paths[j]).len() > 0 && paths[j].last() == x {
            let j = choose|j: int|
                0 <= j < k - 1 && (#[trigger] paths[j]).len() > 0 && paths[j].last() == x;
            assert(paths[j].len() > 0);
        }
    } else {
        assert(!super::rust::last_names(paths, k).contains(x));
    }
}

proof fn lemma_in_either(a: Seq<Seq<char>>, b: Seq<Seq<char>>, x: Seq<char>)
    ensures
        (a + b).contains(x) <==> a.contains(x) || b.contains(x),
{
    if a.contains(x) {
        let k = choose|k: int| 0 <= k < a.len() && a[k] == x;
        assert((a + b)[k] == x);
    }
    if b.contains(x) {
        let k = choose|k: int| 0 <= k < b.len() && b[k] == x;
        assert((a + b)[a.len() + k] == x);
    }
}

// ─── Whole files ──────────────────────────────────────────────────────────────

/// What a name can be in a module.
pub enum Role {
    /// A public function or method
    Public,
    /// A function or method, public or not
    Function,
    /// A state variable
    State,
    /// A crate that is imported
    Import,
    /// A type that is defined
    Type,
}

/// Whether a module lists a name in a role.
pub open spec fn is_listed_as(m: ExtractedModuleModel, role: Role, x: Seq<char>) -> bool {
    match role {
        Role::Public => m.public_functions.contains(x),
        Role::Function => m.public_functions.contains(x) || m.private_functions.contains(x),
        Role::State => m.state_variables.contains(x),
        Role::Import => m.imports.contains(x),
        Role::Type => has_key(m.type_definitions, x),
    }
}

/// Whether a member of an impl block declares a function in a role.
pub open spec fn member_declares(
    owner: Option<Seq<Seq<char>>>,
    member: RsMemberModel,
    role: Role,
    x: Seq<char>,
) -> bool {
    member matches RsMemberModel::Method { public, signature } && qualified(owner, signature.name)
        == x && (role is Function || role is Public && public)
}

/// Whether an item declares a name in a role, itself or in an item that stands in it. Items of
/// test modules declare nothing.
pub open spec fn declares_as(item: RsItemModel, role: Role, x: Seq<char>) -> bool
    decreases item, 0int,
{
    match item {
        RsItemModel::Use(tree) => role is Import && leads_into(tree, x),
        RsItemModel::Fn { public, signature } => signature.name == x && (role is Function || role
            is Public && public),
        RsItemModel::Struct { name, .. } => name == x && (role is State || role is Type),
        RsItemModel::Enum { name, .. } => name == x && (role is State || role is Type),
        RsItemModel::Trait { name, .. } => name == x && role is Type,
        RsItemModel::TypeAlias { name, .. } => name == x && role is Type,
        RsItemModel::Mod { attributes, items } => match items {
            Some(items) => !is_test_module(attributes) && any_declares_as(items, role, x),
            None => false,
        },
        RsItemModel::Impl { trait_path, self_path, members } => exists|k: int|
            0 <= k < members.len() && member_declares(self_path, #[trigger] members[k], role, x),
        RsItemModel::Variable { name, inner } => (role is State && name == x && name != "_"@)
            || any_declares_as(inner, role, x),
        RsItemModel::Other { inner } => any_declares_as(inner, role, x),
    }
}

pub open spec fn any_declares_as(items: Seq<RsItemModel>, role: Role, x: Seq<char>) -> bool
    decreases items,
{
    exists|i: int| 0 <= i < items.len() && declares_as(#[trigger] items[i], role, x)
}

/// Whether an import leads into an outside crate.
pub open spec fn leads_into(tree: RsUseModel, x: Seq<char>) -> bool {
    let paths = flattened(Seq::empty(), tree);
    exists|i: int| 0 <= i < paths.len() && root_crate(#[trigger] paths[i]) == Some(x)
}

proof fn lemma_roots(imports: Seq<Seq<char>>, paths: Seq<Seq<char>>, k: int, x: Seq<char>)
    requires
        0 <= k <= paths.len(),
    ensures
        with_roots(imports, paths, k).contains(x) <==> imports.contains(x) || exists|i: int|
            0 <= i < k && root_crate(#[trigger] paths[i]) == Some(x),
    decreases k,
{
    if k > 0 {
        lemma_roots(imports, paths, k - 1, x);
        let before = with_roots(imports, paths, k - 1);
        if let Some(root) = root_crate(paths[k - 1]) {
            lemma_with_name(before, root);
        }
        if exists|i: int| 0 <= i < k && root_crate(#[trigger] paths[i]) == Some(x) {
            let i = choose|i: int| 0 <= i < k && root_crate(#[trigger] paths[i]) == Some(x);
            if i < k - 1 {
                assert(root_crate(paths[i]) == Some(x));
            }
        }
        if exists|i: int| 0 <= i < k - 1 && root_crate(#[trigger] paths[i]) == Some(x) {
            let i = choose|i: int| 0 <= i < k - 1 && root_crate(#[trigger] paths[i]) == Some(x);
            assert(root_crate(paths[i]) == Some(x));
        }
    }
}

proof fn lemma_pushed(list: Seq<Seq<char>>, name: Seq<char>, x: Seq<char>)
    ensures
        list.push(name).contains(x) <==> list.contains(x) || x == name,
{
    assert(list.push(name) =~= list + seq![name]);
    assert(seq![name][0] == name);
    lemma_in_either(list, seq![name], x);
}

proof fn lemma_entry(defs: Seq<(Seq<char>, TypeInfoModel)>, name: Seq<char>, ti: TypeInfoModel, x: Seq<char>)
    ensures
        has_key(with_entry(defs, name, ti), x) <==> has_key(defs, x) || x == name,
{
    let after = with_entry(defs, name, ti);
    lemma_key_index(defs, x);
    lemma_key_index(after, x);
    if x == name {
        lookup_after_insert(defs, name, ti);
    } else {
        lookup_of_other_key(defs, name, ti, x);
    }
}

proof fn lemma_trait_keys(
    m: ExtractedModuleModel,
    owner: Seq<char>,
    trait_name: Seq<char>,
    role: Role,
    x: Seq<char>,
)
    ensures
        is_listed_as(with_trait_impl(m, owner, trait_name), role, x) <==> is_listed_as(m, role, x),
{
    match lookup(m.type_definitions, owner) {
        Some(ti) => {
            let more = TypeInfoModel { trait_impls: with_name(ti.trait_impls, trait_name), ..ti };
            lemma_entry(m.type_definitions, owner, more, x);
            lemma_key_index(m.type_definitions, owner);
        },
        None => {},
    }
}

proof fn lemma_members(
    m: ExtractedModuleModel,
    owner: Option<Seq<Seq<char>>>,
    members: Seq<RsMemberModel>,
    k: int,
    role: Role,
    x: Seq<char>,
)
    requires
        0 <= k <= members.len(),
    ensures
        is_listed_as(with_members(m, owner, members, k), role, x) <==> is_listed_as(m, role, x)
            || exists|i: int|
            0 <= i < k && member_declares(owner, #[trigger] members[i], role, x),
    decreases k,
{
    if k > 0 {
        lemma_members(m, owner, members, k - 1, role, x);
        let before = with_members(m, owner, members, k - 1);
        if let RsMemberModel::Method { public, signature } = members[k - 1] {
            let name = qualified(owner, signature.name);
            lemma_with_name(before.public_functions, name);
            lemma_with_name(before.private_functions, name);
        }
        assert(is_listed_as(with_members(m, owner, members, k), role, x) <==> is_listed_as(
            before,
            role,
            x,
        ) || member_declares(owner, members[k - 1], role, x));
        if exists|i: int| 0 <= i < k && member_declares(owner, #[trigger] members[i], role, x) {
            let i = choose|i: int|
                0 <= i < k && member_declares(owner, #[trigger] members[i], role, x);
            if i < k - 1 {
                assert(member_declares(owner, members[i], role, x));
            }
        }
        if exists|i: int| 0 <= i < k - 1 && member_declares(owner, #[trigger] members[i], role, x) {
            let i = choose|i: int|
                0 <= i < k - 1 && member_declares(owner, #[trigger] members[i], role, x);
            assert(member_declares(owner, members[i], role, x));
        }
    }
}

proof fn lemma_item(m: ExtractedModuleModel, item: RsItemModel, role: Role, x: Seq<char>)
    ensures
        is_listed_as(with_item(m, item), role, x) <==> is_listed_as(m, role, x) || declares_as(
            item,
            role,
            x,
        ),
    decreases item, 0int,
{
    let after = with_item(m, item);
    match item {
        RsItemModel::Use(tree) => {
            let paths = flattened(Seq::empty(), tree);
            lemma_roots(m.imports, paths, paths.len() as int, x);
        },
        RsItemModel::Fn { public, signature } => {
            lemma_pushed(m.public_functions, signature.name, x);
            lemma_pushed(m.private_functions, signature.name, x);
        },
        RsItemModel::Struct { name, generics, fields, attributes } => {
            lemma_pushed(m.state_variables, name, x);
            types_are_described(m, item);
            let ti = lookup(after.type_definitions, name)->Some_0;
            lemma_key_index(after.type_definitions, x);
            lemma_new_key(m.type_definitions, after.type_definitions, name, x);
        },
        RsItemModel::Enum { name, generics, variants, attributes } => {
            lemma_pushed(m.state_variables, name, x);
            lemma_new_key(m.type_definitions, after.type_definitions, name, x);
        },
        RsItemModel::Trait { name, generics, supertraits } => {
            lemma_new_key(m.type_definitions, after.type_definitions, name, x);
        },
        RsItemModel::TypeAlias { name, generics } => {
            lemma_new_key(m.type_definitions, after.type_definitions, name, x);
        },
        RsItemModel::Mod { attributes, items } => {
            if let Some(items) = items {
                lemma_items(m, items, items.len() as int, role, x);
            }
        },
        RsItemModel::Impl { trait_path, self_path, members } => {
            let known = match (trait_path, self_path) {
                (Some(t), Some(s)) => with_trait_impl(m, last_name(s), last_name(t)),
                _ => m,
            };
            if let (Some(t), Some(s)) = (trait_path, self_path) {
                lemma_trait_keys(m, last_name(s), last_name(t), role, x);
            }
            lemma_members(known, self_path, members, members.len() as int, role, x);
        },
        RsItemModel::Variable { name, inner } => {
            let named = if name == "_"@ {
                m
            } else {
                with_state(m, name)
            };
            lemma_pushed(m.state_variables, name, x);
            lemma_items(named, inner, inner.len() as int, role, x);
        },
        RsItemModel::Other { inner } => {
            lemma_items(m, inner, inner.len() as int, role, x);
        },
    }
}

proof fn lemma_new_key(
    before: Seq<(Seq<char>, TypeInfoModel)>,
    after: Seq<(Seq<char>, TypeInfoModel)>,
    name: Seq<char>,
    x: Seq<char>,
)
    requires
        exists|ti: TypeInfoModel| after == #[trigger] with_entry(before, name, ti),
    ensures
        has_key(after, x) <==> has_key(before, x) || x == name,
{
    let ti = choose|ti: TypeInfoModel| after == #[trigger] with_entry(before, name, ti);
    lemma_entry(before, name, ti, x);
}

proof fn lemma_items(m: ExtractedModuleModel, items: Seq<RsItemModel>, k: int, role: Role, x: Seq<char>)
    requires
        0 <= k <= items.len(),
    ensures
        is_listed_as(with_items(m, items, k), role, x) <==> is_listed_as(m, role, x) || exists|
            i: int,
        |
            0 <= i < k && declares_as(#[trigger] items[i], role, x),
    decreases items, k,
{
    if k > 0 {
        lemma_items(m, items, k - 1, role, x);
        lemma_item(with_items(m, items, k - 1), items[k - 1], role, x);
        if exists|i: int| 0 <= i < k && declares_as(#[trigger] items[i], role, x) {
            let i = choose|i: int| 0 <= i < k && declares_as(#[trigger] items[i], role, x);
            if i < k - 1 {
                assert(declares_as(items[i], role, x));
            }
        }
        if exists|i: int| 0 <= i < k - 1 && declares_as(#[trigger] items[i], role, x) {
            let i = choose|i: int| 0 <= i < k - 1 && declares_as(#[trigger] items[i], role, x);
            assert(declares_as(items[i], role, x));
        }
    }
}

proof fn lemma_traits_list_nothing(m: ExtractedModuleModel, item: RsItemModel, role: Role, x: Seq<char>)
    ensures
        is_listed_as(with_traits(m, item), role, x) <==> is_listed_as(m, role, x),
    decreases item, 0int,
{
    match item {
        RsItemModel::Mod { attributes, items } => {
            if let Some(items) = items {
                lemma_all_traits_list_nothing(m, items, items.len() as int, role, x);
            }
        },
        RsItemModel::Impl { trait_path, self_path, members } => {
            if let (Some(t), Some(s)) = (trait_path, self_path) {
                lemma_trait_keys(m, last_name(s), last_name(t), role, x);
            }
        },
        RsItemModel::Variable { name, inner } => {
            lemma_all_traits_list_nothing(m, inner, inner.len() as int, role, x);
        },
        RsItemModel::Other { inner } => {
            lemma_all_traits_list_nothing(m, inner, inner.len() as int, role, x);
        },
        _ => {},
    }
}

proof fn lemma_all_traits_list_nothing(
    m: ExtractedModuleModel,
    items: Seq<RsItemModel>,
    k: int,
    role: Role,
    x: Seq<char>,
)
    ensures
        is_listed_as(with_all_traits(m, items, k), role, x) <==> is_listed_as(m, role, x),
    decreases items, k,
{
    if 0 < k <= items.len() {
        lemma_all_traits_list_nothing(m, items, k - 1, role, x);
        lemma_traits_list_nothing(with_all_traits(m, items, k - 1), items[k - 1], role, x);
    }
}

/// A module lists a name as a public function, as a function, as state, as an import or as a
/// type exactly where some item of its source file declares it so.
pub proof fn names_are_listed_as_they_are_declared(
    stem: Option<Seq<char>>,
    path: Seq<char>,
    items: Seq<RsItemModel>,
    role: Role,
    x: Seq<char>,
)
    ensures
        is_listed_as(items_module(stem, path, items), role, x) <==> any_declares_as(items, role, x),
{
    let n = items.len() as int;
    let start = new_module(stem, path, "rust"@);
    lemma_items(start, items, n, role, x);
    lemma_all_traits_list_nothing(with_items(start, items, n), items, n, role, x);
    assert(!is_listed_as(start, role, x)) by {
        lemma_key_index(start.type_definitions, x);
    }
}

// ─── Imports ──────────────────────────────────────────────────────────────────

/// Whether a path is a name, or leads on from it.
pub open spec fn starts_at(path: Seq<char>, name: Seq<char>) -> bool {
    path == name || (path.len() >= name.len() + 2 && path.take(name.len() as int) == name
        && path[name.len() as int] == ':' && path[name.len() as int + 1] == ':')
}

/// A path leads into the crate that it starts at, unless it leads into the crate itself or the
/// standard library.
pub proof fn paths_lead_into_their_root(path: Seq<char>, name: Seq<char>)
    requires
        starts_at(path, name),
        text::lacks(name, ':'),
    ensures
        root_of(path) == name,
        root_crate(path) == (if name == "crate"@ || name == "super"@ || name == "self"@ || name
            == "std"@ || name == "core"@ || name == "alloc"@ {
            None
        } else {
            Some(name)
        }),
{
    reveal_strlit("::");
    let n = name.len() as int;
    text::lemma_find_from(path, "::"@, 0);
    assert forall|j: int| 0 <= j < n implies path[j] != ':' by {
        assert(path.take(n)[j] == path[j]);
        assert(name[j] != ':');
    }
    match text::find(path, "::"@) {
        Some(k) => {
            assert(path.subrange(k, k + 2)[0] == path[k]);
            if path == name {
                assert(false);
            }
            assert(path.subrange(n, n + 2) =~= "::"@);
            assert(text::occurs_at(path, "::"@, n));
            assert(k == n);
        },
        None => {
            if path != name {
                assert(path.subrange(n, n + 2) =~= "::"@);
                assert(text::occurs_at(path, "::"@, n));
            }
        },
    }
}

proof fn lemma_paths_start(prefix: Seq<char>, tree: RsUseModel, name: Seq<char>, i: int)
    requires
        name.len() > 0,
        starts_at(prefix, name),
        0 <= i < flattened(prefix, tree).len(),
    ensures
        starts_at(flattened(prefix, tree)[i], name),
    decreases tree, 0int,
{
    reveal_strlit("::");
    reveal_strlit("::*");
    match tree {
        RsUseModel::Path(next, rest) => {
            lemma_joined_start(prefix, next, name);
            lemma_paths_start(path_joined(prefix, next), *rest, name, i);
        },
        RsUseModel::Name(next) => {
            lemma_joined_start(prefix, next, name);
        },
        RsUseModel::Rename(next) => {
            lemma_joined_start(prefix, next, name);
        },
        RsUseModel::Glob => {
            let path = prefix + "::*"@;
            assert(path.take(name.len() as int) =~= prefix.take(name.len() as int));
            assert(prefix == name ==> prefix.take(name.len() as int) =~= name);
        },
        RsUseModel::Group(items) => {
            lemma_group_starts(prefix, items, items.len() as int, name, i);
        },
    }
}

proof fn lemma_group_starts(
    prefix: Seq<char>,
    items: Seq<RsUseModel>,
    k: int,
    name: Seq<char>,
    i: int,
)
    requires
        name.len() > 0,
        starts_at(prefix, name),
        0 <= i < flattened_group(prefix, items, k).len(),
    ensures
        starts_at(flattened_group(prefix, items, k)[i], name),
    decreases items, k,
{
    if 0 < k <= items.len() {
        let before = flattened_group(prefix, items, k - 1);
        if i < before.len() {
            lemma_group_starts(prefix, items, k - 1, name, i);
        } else {
            lemma_paths_start(prefix, items[k - 1], name, i - before.len());
        }
    }
}

proof fn lemma_joined_start(prefix: Seq<char>, next: Seq<char>, name: Seq<char>)
    requires
        name.len() > 0,
        starts_at(prefix, name),
    ensures
        starts_at(path_joined(prefix, next), name),
{
    reveal_strlit("::");
    let path = path_joined(prefix, next);
    assert(prefix.len() > 0);
    assert(path.take(name.len() as int) =~= prefix.take(name.len() as int));
    assert(prefix == name ==> prefix.take(name.len() as int) =~= name);
}

/// All that is imported from under a name leads into the crate of that name.
pub proof fn imports_lead_into_their_crate(name: Seq<char>, rest: RsUseModel, x: Seq<char>)
    requires
        name.len() > 0,
        text::lacks(name, ':'),
        flattened(name, rest).len() > 0,
    ensures
        leads_into(RsUseModel::Path(name, Box::new(rest)), x) <==> x == name && !is_own_root(name),
{
    let tree = RsUseModel::Path(name, Box::new(rest));
    let paths = flattened(Seq::empty(), tree);
    assert(paths == flattened(name, rest));
    assert forall|i: int| 0 <= i < paths.len() implies #[trigger] root_crate(paths[i]) == (
    if is_own_root(name) {
        None
    } else {
        Some(name)
    }) by {
        lemma_paths_start(name, rest, name, i);
        paths_lead_into_their_root(paths[i], name);
    }
    if x == name && !is_own_root(name) {
        assert(root_crate(paths[0]) == Some(x));
    }
}

/// A group of imports leads into all crates that its members lead into.
pub proof fn groups_lead_into_all_their_crates(items: Seq<RsUseModel>, k: int, x: Seq<char>)
    requires
        0 <= k <= items.len(),
    ensures
        (exists|i: int|
            0 <= i < flattened_group(Seq::empty(), items, k).len() && root_crate(
                #[trigger] flattened_group(Seq::empty(), items, k)[i],
            ) == Some(x)) <==> exists|j: int| 0 <= j < k && leads_into(#[trigger] items[j], x),
    decreases k,
{
    let none = Seq::<char>::empty();
    let all = flattened_group(none, items, k);
    if k > 0 {
        groups_lead_into_all_their_crates(items, k - 1, x);
        let before = flattened_group(none, items, k - 1);
        let last = flattened(none, items[k - 1]);
        assert(all == before + last);
        if exists|i: int| 0 <= i < all.len() && root_crate(#[trigger] all[i]) == Some(x) {
            let i = choose|i: int| 0 <= i < all.len() && root_crate(#[trigger] all[i]) == Some(x);
            if i < before.len() {
                assert(root_crate(before[i]) == Some(x));
                let j = choose|j: int| 0 <= j < k - 1 && leads_into(#[trigger] items[j], x);
                assert(leads_into(items[j], x));
            } else {
                assert(root_crate(last[i - before.len()]) == Some(x));
                assert(leads_into(items[k - 1], x));
            }
        }
        if exists|j: int| 0 <= j < k && leads_into(#[trigger] items[j], x) {
            let j = choose|j: int| 0 <= j < k && leads_into(#[trigger] items[j], x);
            if j < k - 1 {
                assert(leads_into(items[j], x));
                let i = choose|i: int|
                    0 <= i < before.len() && root_crate(#[trigger] before[i]) == Some(x);
                assert(all[i] == before[i]);
            } else {
                let i = choose|i: int| 0 <= i < last.len() && root_crate(#[trigger] last[i]) == Some(x);
                assert(all[before.len() + i] == last[i]);
            }
        }
    }
}

/// A module that is only compiled for tests declares nothing; what any other module with a body
/// holds is taken up, and a module without a body declares nothing.
pub proof fn test_modules_are_left_out(
    m: ExtractedModuleModel,
    attributes: Seq<RsAttributeModel>,
    items: Seq<RsItemModel>,
)
    ensures
        with_item(m, RsItemModel::Mod { attributes, items: Some(items) }) == if exists|k: int|
            0 <= k < attributes.len() && (#[trigger] attributes[k]).segments.contains("cfg"@)
                && text::contains(attributes[k].written, "test"@) {
            m
        } else {
            with_items(m, items, items.len() as int)
        },
        with_item(m, RsItemModel::Mod { attributes, items: None }) == m,
{
    reveal_with_fuel(with_item, 2);
    let is_test = exists|k: int|
        0 <= k < attributes.len() && (#[trigger] attributes[k]).segments.contains("cfg"@)
            && text::contains(attributes[k].written, "test"@);
    assert(is_test_module(attributes) == is_test) by {
        if is_test {
            let k = choose|k: int|
                0 <= k < attributes.len() && (#[trigger] attributes[k]).segments.contains("cfg"@)
                    && text::contains(attributes[k].written, "test"@);
            assert(is_test_attribute(attributes[k]));
        }
    }
}

} // verus!

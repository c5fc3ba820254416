//! Extraction from Rust source files.
use vstd::prelude::*;

use super::rust_syntax::{
    parse_items, rs_item_model_of_lists, rs_option_model, rs_type_model_of_lists,
    rs_use_model_of_group, rust_items, RsArg, RsArgModel, RsAttribute, RsAttributeModel, RsField,
    RsFieldModel, RsFields, RsFieldsModel, RsGeneric, RsGenericModel, RsItem, RsItemModel, RsMember,
    RsMemberModel, RsSignature, RsSignatureModel, RsType, RsTypeModel, RsUse, RsUseModel,
};
use super::{new_module, start_module, ExtractedModule, ExtractedModuleModel};
use crate::data::{
    add_name, append_item, lemma_with_name, list_contains, lookup, lookup_after_insert,
    lookup_of_other_key, result_view, with_entry, with_name, Duplicate,
};
use crate::text;
use crate::types::{
    type_model, type_model_of_lists, FieldInfo, FieldInfoModel, FunctionInfo, FunctionInfoModel,
    GenericParam, GenericParamModel, ParamInfo, ParamInfoModel, TypeInfo, TypeInfoModel, TypeKind,
    TypeRepr, TypeReprModel, VariantInfo, VariantInfoModel, Visibility,
};

verus! {

// ─── Imports ──────────────────────────────────────────────────────────────────

/// A name behind the path that leads to it.
pub open spec fn path_joined(prefix: Seq<char>, name: Seq<char>) -> Seq<char> {
    if prefix.len() == 0 {
        name
    } else {
        prefix + "::"@ + name
    }
}

/// The paths that an import stands for.
pub open spec fn flattened(prefix: Seq<char>, u: RsUseModel) -> Seq<Seq<char>>
    decreases u, 0int,
{
    match u {
        RsUseModel::Path(name, rest) => flattened(path_joined(prefix, name), *rest),
        RsUseModel::Name(name) => seq![path_joined(prefix, name)],
        RsUseModel::Rename(name) => seq![path_joined(prefix, name)],
        RsUseModel::Glob => seq![prefix + "::*"@],
        RsUseModel::Group(items) => flattened_group(prefix, items, items.len() as int),
    }
}

/// The paths that the first `k` members of a group stand for.
pub open spec fn flattened_group(prefix: Seq<char>, items: Seq<RsUseModel>, k: int) -> Seq<Seq<char>>
    decreases items, k,
{
    if k <= 0 || k > items.len() {
        Seq::empty()
    } else {
        flattened_group(prefix, items, k - 1) + flattened(prefix, items[k - 1])
    }
}

fn join_path(prefix: &str, name: &str) -> (r: String)
    ensures
        r@ == path_joined(prefix@, name@),
{
    if prefix.is_empty() {
        name.to_owned()
    } else {
        let mut out = prefix.to_owned();
        out.append("::");
        out.append(name);
        out
    }
}

fn single(s: String) -> (r: Vec<String>)
    ensures
        r.deep_view() == seq![s@],
{
    let r: Vec<String> = vec![s];
    assert(r.deep_view() =~= seq![s@]);
    r
}

fn append_all(list: &mut Vec<String>, more: Vec<String>)
    ensures
        final(list).deep_view() == old(list).deep_view() + more.deep_view(),
{
    let ghost before = list.deep_view();
    let ghost all = more.deep_view();
    assert(before + all.take(0) =~= before);
    let mut i: usize = 0;
    while i < more.len()
        invariant
            i <= more@.len(),
            all == more.deep_view(),
            list.deep_view() == before + all.take(i as int),
        decreases more@.len() - i,
    {
        assert(all[i as int] == more@[i as int]@);
        append_item(list, more[i].clone());
        assert(before + all.take(i + 1) =~= (before + all.take(i as int)).push(all[i as int]));
        i += 1;
    }
    assert(all.take(all.len() as int) =~= all);
}

/// The paths that an import stands for.
pub fn flatten_use_tree(prefix: &str, tree: &RsUse) -> (r: Vec<String>)
    ensures
        r.deep_view() == flattened(prefix@, tree.deep_view()),
    decreases tree,
{
    proof {
        rs_use_model_of_group(*tree);
        reveal_with_fuel(flattened, 2);
        reveal_with_fuel(flattened_group, 2);
    }
    match tree {
        RsUse::Path(name, rest) => {
            let longer = join_path(prefix, name.as_str());
            flatten_use_tree(longer.as_str(), rest)
        },
        RsUse::Name(name) => single(join_path(prefix, name.as_str())),
        RsUse::Rename(name) => single(join_path(prefix, name.as_str())),
        RsUse::Glob => {
            let mut out = prefix.to_owned();
            out.append("::*");
            single(out)
        },
        RsUse::Group(items) => flatten_group(prefix, items),
    }
}

fn flatten_group(prefix: &str, items: &Vec<RsUse>) -> (r: Vec<String>)
    ensures
        r.deep_view() == flattened_group(prefix@, items.deep_view(), items@.len() as int),
    decreases items,
{
    let mut out: Vec<String> = Vec::new();
    assert(out.deep_view() =~= Seq::empty());
    let mut i: usize = 0;
    while i < items.len()
        invariant
            i <= items@.len(),
            out.deep_view() == flattened_group(prefix@, items.deep_view(), i as int),
        decreases items@.len() - i,
    {
        assert(items.deep_view()[i as int] == items@[i as int].deep_view());
        proof {
            reveal_with_fuel(flattened_group, 2);
        }
        append_all(&mut out, flatten_use_tree(prefix, &items[i]));
        i += 1;
    }
    out
}

/// What stands before the first `::` of a path.
pub open spec fn root_of(path: Seq<char>) -> Seq<char> {
    match text::find(path, "::"@) {
        Some(k) => path.take(k),
        None => path,
    }
}

/// Whether a root is no crate of its own: it leads into the crate itself, or into the
/// standard library.
pub open spec fn is_own_root(root: Seq<char>) -> bool {
    ||| root == "crate"@
    ||| root == "super"@
    ||| root == "self"@
    ||| root == "std"@
    ||| root == "core"@
    ||| root == "alloc"@
}

/// The crate that a path leads into, if it is an outside one.
pub open spec fn root_crate(path: Seq<char>) -> Option<Seq<char>> {
    if is_own_root(root_of(path)) {
        None
    } else {
        Some(root_of(path))
    }
}

pub fn get_root_crate(path: &str) -> (r: Option<String>)
    ensures
        r.deep_view() == root_crate(path@),
{
    let chars = text::chars_of(path);
    let separator = text::chars_of("::");
    let root = match text::find_chars_from(chars.as_slice(), separator.as_slice(), 0) {
        Some(k) => {
            assert(chars@.take(k as int) =~= chars@.subrange(0, k as int));
            text::piece(chars.as_slice(), 0, k)
        },
        None => path.to_owned(),
    };
    let name = root.as_str();
    if text::same(name, "crate") || text::same(name, "super") || text::same(name, "self")
        || text::same(name, "std") || text::same(name, "core") || text::same(name, "alloc") {
        None
    } else {
        Some(root)
    }
}

/// The imports with the crates that the first `k` paths lead into.
pub open spec fn with_roots(imports: Seq<Seq<char>>, paths: Seq<Seq<char>>, k: int) -> Seq<Seq<char>>
    decreases k,
{
    if k <= 0 || k > paths.len() {
        imports
    } else {
        let before = with_roots(imports, paths, k - 1);
        match root_crate(paths[k - 1]) {
            Some(root) => with_name(before, root),
            None => before,
        }
    }
}

fn add_roots(imports: &mut Vec<String>, paths: &Vec<String>)
    ensures
        final(imports).deep_view() == with_roots(
            old(imports).deep_view(),
            paths.deep_view(),
            paths@.len() as int,
        ),
{
    let ghost before = imports.deep_view();
    let mut i: usize = 0;
    while i < paths.len()
        invariant
            i <= paths@.len(),
            imports.deep_view() == with_roots(before, paths.deep_view(), i as int),
        decreases paths@.len() - i,
    {
        assert(paths.deep_view()[i as int] == paths@[i as int]@);
        if let Some(root) = get_root_crate(paths[i].as_str()) {
            add_name(imports, &root);
        }
        i += 1;
    }
}

// ─── Types ────────────────────────────────────────────────────────────────────

/// The name that a path makes up.
pub open spec fn path_name(segments: Seq<Seq<char>>) -> Seq<char> {
    if segments.len() == 0 {
        "()"@
    } else {
        text::join(segments, "::"@)
    }
}

/// A Rust type as a language-neutral one.
pub open spec fn repr_of(t: RsTypeModel) -> TypeReprModel
    decreases t, 0int,
{
    match t {
        RsTypeModel::Path(segments) => TypeReprModel::Named(path_name(segments)),
        RsTypeModel::Generic { segments, args } => {
            let reprs = reprs_of(args, args.len() as int);
            if segments.len() == 0 || reprs.len() == 0 {
                TypeReprModel::Named(path_name(segments))
            } else {
                TypeReprModel::Applied(
                    Box::new(TypeReprModel::Named(path_name(segments))),
                    reprs,
                )
            }
        },
        RsTypeModel::Callable { segments, params, ret } => if segments.len() == 0 {
            TypeReprModel::Named(path_name(segments))
        } else {
            TypeReprModel::FnPointer {
                params: reprs_of(params, params.len() as int),
                ret: Box::new(
                    match ret {
                        Some(r) => repr_of(*r),
                        None => TypeReprModel::Unit,
                    },
                ),
            }
        },
        RsTypeModel::Reference { mutable, inner } => TypeReprModel::Reference {
            mutable,
            inner: Box::new(repr_of(*inner)),
        },
        RsTypeModel::Tuple(elems) => if elems.len() == 0 {
            TypeReprModel::Unit
        } else {
            TypeReprModel::Tuple(reprs_of(elems, elems.len() as int))
        },
        RsTypeModel::Slice(inner) => TypeReprModel::Slice(Box::new(repr_of(*inner))),
        RsTypeModel::Array(inner, n) => TypeReprModel::Array(
            Box::new(repr_of(*inner)),
            match n {
                Some(n) => n,
                None => 0,
            },
        ),
        RsTypeModel::BareFn { params, ret } => TypeReprModel::FnPointer {
            params: reprs_of(params, params.len() as int),
            ret: Box::new(
                match ret {
                    Some(r) => repr_of(*r),
                    None => TypeReprModel::Unit,
                },
            ),
        },
        RsTypeModel::Paren(inner) => repr_of(*inner),
        RsTypeModel::Infer => TypeReprModel::Infer,
        RsTypeModel::Other(s) => TypeReprModel::Named(s),
        RsTypeModel::NotType => TypeReprModel::Unit,
    }
}

/// The first `k` of a list, without those that are no types.
pub open spec fn reprs_of(ts: Seq<RsTypeModel>, k: int) -> Seq<TypeReprModel>
    decreases ts, k,
{
    if k <= 0 || k > ts.len() {
        Seq::empty()
    } else if ts[k - 1] is NotType {
        reprs_of(ts, k - 1)
    } else {
        reprs_of(ts, k - 1).push(repr_of(ts[k - 1]))
    }
}

/// A return type as a language-neutral one; nothing is the unit type.
pub open spec fn return_repr(ret: Option<Box<RsTypeModel>>) -> TypeReprModel {
    match ret {
        Some(r) => repr_of(*r),
        None => TypeReprModel::Unit,
    }
}

proof fn lemma_repr_of_lists(t: RsTypeModel)
    ensures
        repr_of(t) == match t {
            RsTypeModel::Generic { segments, args } => {
                let reprs = reprs_of(args, args.len() as int);
                if segments.len() == 0 || reprs.len() == 0 {
                    TypeReprModel::Named(path_name(segments))
                } else {
                    TypeReprModel::Applied(
                        Box::new(TypeReprModel::Named(path_name(segments))),
                        reprs,
                    )
                }
            },
            RsTypeModel::Callable { segments, params, ret } => if segments.len() == 0 {
                TypeReprModel::Named(path_name(segments))
            } else {
                TypeReprModel::FnPointer {
                    params: reprs_of(params, params.len() as int),
                    ret: Box::new(return_repr(ret)),
                }
            },
            RsTypeModel::Tuple(elems) => if elems.len() == 0 {
                TypeReprModel::Unit
            } else {
                TypeReprModel::Tuple(reprs_of(elems, elems.len() as int))
            },
            RsTypeModel::BareFn { params, ret } => TypeReprModel::FnPointer {
                params: reprs_of(params, params.len() as int),
                ret: Box::new(return_repr(ret)),
            },
            _ => repr_of(t),
        },
{
    reveal_with_fuel(repr_of, 2);
    reveal_with_fuel(reprs_of, 2);
}

fn make_path_name(segments: &Vec<String>) -> (r: String)
    ensures
        r@ == path_name(segments.deep_view()),
{
    if segments.len() == 0 {
        "()".to_owned()
    } else {
        text::join_strings(segments.as_slice(), "::")
    }
}

fn return_to_repr(ret: &Option<Box<RsType>>) -> (r: Box<TypeRepr>)
    ensures
        r.deep_view() == return_repr(rs_option_model(*ret)),
    decreases ret, 1nat,
{
    match ret {
        Some(t) => Box::new(type_to_repr(t)),
        None => Box::new(TypeRepr::Unit),
    }
}

/// A Rust type as a language-neutral one.
pub fn type_to_repr(ty: &RsType) -> (r: TypeRepr)
    ensures
        r.deep_view() == repr_of(ty.deep_view()),
    decreases ty, 0nat,
{
    proof {
        rs_type_model_of_lists(*ty);
        lemma_repr_of_lists(ty.deep_view());
    }
    let r = match ty {
        RsType::Path(segments) => TypeRepr::Named(make_path_name(segments)),
        RsType::Generic { segments, args } => {
            let name = make_path_name(segments);
            let reprs = types_to_reprs(args);
            if segments.len() == 0 || reprs.len() == 0 {
                TypeRepr::Named(name)
            } else {
                TypeRepr::Applied(Box::new(TypeRepr::Named(name)), reprs)
            }
        },
        RsType::Callable { segments, params, ret } => {
            if segments.len() == 0 {
                TypeRepr::Named(make_path_name(segments))
            } else {
                let params = types_to_reprs(params);
                TypeRepr::FnPointer { params, ret: return_to_repr(ret) }
            }
        },
        RsType::Reference { mutable, inner } => TypeRepr::Reference {
            mutable: *mutable,
            inner: Box::new(type_to_repr(inner)),
        },
        RsType::Tuple(elems) => {
            if elems.len() == 0 {
                TypeRepr::Unit
            } else {
                TypeRepr::Tuple(types_to_reprs(elems))
            }
        },
        RsType::Slice(inner) => TypeRepr::Slice(Box::new(type_to_repr(inner))),
        RsType::Array(inner, n) => {
            let size: usize = match n {
                Some(n) => *n,
                None => 0,
            };
            TypeRepr::Array(Box::new(type_to_repr(inner)), size)
        },
        RsType::BareFn { params, ret } => {
            let params = types_to_reprs(params);
            TypeRepr::FnPointer { params, ret: return_to_repr(ret) }
        },
        RsType::Paren(inner) => type_to_repr(inner),
        RsType::Infer => TypeRepr::Infer,
        RsType::Other(s) => TypeRepr::Named(s.clone()),
        RsType::NotType => TypeRepr::Unit,
    };
    proof {
        type_model_of_lists(r);
        reveal_with_fuel(type_model, 2);
    }
    r
}

fn types_to_reprs(ts: &Vec<RsType>) -> (r: Vec<TypeRepr>)
    ensures
        r.deep_view() == reprs_of(ts.deep_view(), ts@.len() as int),
        r@.len() == r.deep_view().len(),
    decreases ts, 0nat,
{
    let mut out: Vec<TypeRepr> = Vec::new();
    assert(out.deep_view() =~= Seq::empty());
    let mut i: usize = 0;
    while i < ts.len()
        invariant
            i <= ts@.len(),
            out.deep_view() == reprs_of(ts.deep_view(), i as int),
        decreases ts@.len() - i,
    {
        assert(ts.deep_view()[i as int] == ts@[i as int].deep_view());
        proof {
            reveal_with_fuel(reprs_of, 2);
        }
        let no_type = match &ts[i] {
            RsType::NotType => true,
            _ => false,
        };
        if !no_type {
            append_item(&mut out, type_to_repr(&ts[i]));
        }
        i += 1;
    }
    assert(out.deep_view().len() == out@.len());
    out
}

// ─── Functions ────────────────────────────────────────────────────────────────

/// The type parameters among the first `k` generic parameters.
pub open spec fn generics_of(gs: Seq<RsGenericModel>, k: int) -> Seq<GenericParamModel>
    decreases k,
{
    if k <= 0 || k > gs.len() {
        Seq::empty()
    } else {
        match gs[k - 1] {
            RsGenericModel::Type(name, bounds) => generics_of(gs, k - 1).push(
                GenericParamModel { name, bounds },
            ),
            RsGenericModel::Other => generics_of(gs, k - 1),
        }
    }
}

fn extract_generics(gs: &Vec<RsGeneric>) -> (r: Vec<GenericParam>)
    ensures
        r.deep_view() == generics_of(gs.deep_view(), gs@.len() as int),
{
    let mut out: Vec<GenericParam> = Vec::new();
    assert(out.deep_view() =~= Seq::empty());
    let mut i: usize = 0;
    while i < gs.len()
        invariant
            i <= gs@.len(),
            out.deep_view() == generics_of(gs.deep_view(), i as int),
        decreases gs@.len() - i,
    {
        assert(gs.deep_view()[i as int] == gs@[i as int].deep_view());
        match &gs[i] {
            RsGeneric::Type(name, bounds) => {
                append_item(
                    &mut out,
                    GenericParam { name: name.clone(), bounds: bounds.duplicate() },
                );
            },
            RsGeneric::Other => {},
        }
        i += 1;
    }
    out
}

/// The parameter that an argument declares.
pub open spec fn param_of(a: RsArgModel) -> ParamInfoModel {
    match a {
        RsArgModel::Receiver { reference, mutable } => ParamInfoModel {
            name: Some("self"@),
            type_repr: if reference {
                TypeReprModel::Reference {
                    mutable,
                    inner: Box::new(TypeReprModel::Named("Self"@)),
                }
            } else {
                TypeReprModel::Named("Self"@)
            },
            is_receiver: true,
        },
        RsArgModel::Typed { name, ty, written } => ParamInfoModel {
            name,
            type_repr: repr_of(ty),
            is_receiver: false,
        },
    }
}

pub open spec fn params_of(inputs: Seq<RsArgModel>) -> Seq<ParamInfoModel> {
    inputs.map_values(|a: RsArgModel| param_of(a))
}

/// A function with the types of its parameters and of what it gives back.
pub open spec fn function_info_of(sig: RsSignatureModel) -> FunctionInfoModel {
    FunctionInfoModel {
        name: sig.name,
        params: params_of(sig.inputs),
        return_type: match sig.output {
            Some((t, _)) => Some(repr_of(t)),
            None => None,
        },
        generics: generics_of(sig.generics, sig.generics.len() as int),
    }
}

/// How an argument is written in a signature.
pub open spec fn arg_text(a: RsArgModel) -> Seq<char> {
    match a {
        RsArgModel::Receiver { reference, mutable } => if reference {
            if mutable {
                "&mut self"@
            } else {
                "&self"@
            }
        } else {
            "self"@
        },
        RsArgModel::Typed { name, ty, written } => written,
    }
}

pub open spec fn arg_texts(inputs: Seq<RsArgModel>) -> Seq<Seq<char>> {
    inputs.map_values(|a: RsArgModel| arg_text(a))
}

/// How a signature is written, without its name.
pub open spec fn signature_text(sig: RsSignatureModel) -> Seq<char> {
    let head = "("@ + text::join(arg_texts(sig.inputs), ", "@) + ")"@;
    match sig.output {
        Some((_, written)) => head + " -> "@ + written,
        None => head,
    }
}

fn make_param(a: &RsArg) -> (r: ParamInfo)
    ensures
        r.deep_view() == param_of(a.deep_view()),
{
    proof {
        reveal_with_fuel(type_model, 2);
    }
    match a {
        RsArg::Receiver { reference, mutable } => {
            let own = TypeRepr::Named("Self".to_owned());
            let type_repr = if *reference {
                TypeRepr::Reference { mutable: *mutable, inner: Box::new(own) }
            } else {
                own
            };
            ParamInfo { name: Some("self".to_owned()), type_repr, is_receiver: true }
        },
        RsArg::Typed { name, ty, written: _ } => ParamInfo {
            name: name.duplicate(),
            type_repr: type_to_repr(ty),
            is_receiver: false,
        },
    }
}

/// Builds the description of a function from its signature.
pub fn build_function_info(sig: &RsSignature) -> (r: FunctionInfo)
    ensures
        r.deep_view() == function_info_of(sig.deep_view()),
{
    let mut params: Vec<ParamInfo> = Vec::new();
    let ghost all = params_of(sig.inputs.deep_view());
    let mut i: usize = 0;
    while i < sig.inputs.len()
        invariant
            i <= sig.inputs@.len(),
            all == params_of(sig.inputs.deep_view()),
            params@.len() == i,
            forall|j: int| 0 <= j < i ==> (#[trigger] params@[j]).deep_view() == all[j],
        decreases sig.inputs@.len() - i,
    {
        assert(sig.inputs.deep_view()[i as int] == sig.inputs@[i as int].deep_view());
        params.push(make_param(&sig.inputs[i]));
        i += 1;
    }
    assert(params.deep_view() =~= all);
    let return_type = match &sig.output {
        Some((t, _)) => Some(type_to_repr(t)),
        None => None,
    };
    FunctionInfo {
        name: sig.name.clone(),
        params,
        return_type,
        generics: extract_generics(&sig.generics),
    }
}

/// Writes a signature, without its name.
pub fn format_signature(sig: &RsSignature) -> (r: String)
    ensures
        r@ == signature_text(sig.deep_view()),
{
    let mut texts: Vec<String> = Vec::new();
    let ghost all = arg_texts(sig.inputs.deep_view());
    let mut i: usize = 0;
    while i < sig.inputs.len()
        invariant
            i <= sig.inputs@.len(),
            all == arg_texts(sig.inputs.deep_view()),
            texts@.len() == i,
            forall|j: int| 0 <= j < i ==> (#[trigger] texts@[j])@ == all[j],
        decreases sig.inputs@.len() - i,
    {
        assert(sig.inputs.deep_view()[i as int] == sig.inputs@[i as int].deep_view());
        let written = match &sig.inputs[i] {
            RsArg::Receiver { reference, mutable } => {
                if *reference {
                    if *mutable {
                        "&mut self".to_owned()
                    } else {
                        "&self".to_owned()
                    }
                } else {
                    "self".to_owned()
                }
            },
            RsArg::Typed { name: _, ty: _, written } => written.clone(),
        };
        texts.push(written);
        i += 1;
    }
    assert(texts.deep_view() =~= all);
    let mut out = "(".to_owned();
    out.append(text::join_strings(texts.as_slice(), ", ").as_str());
    out.append(")");
    match &sig.output {
        Some((_, written)) => {
            out.append(" -> ");
            out.append(written.as_str());
        },
        None => {},
    }
    out
}

// ─── Definitions ──────────────────────────────────────────────────────────────

/// The last name of a path, which is empty where there is none.
pub open spec fn last_name(path: Seq<Seq<char>>) -> Seq<char> {
    if path.len() > 0 {
        path.last()
    } else {
        Seq::empty()
    }
}

fn get_last_name(path: &Vec<String>) -> (r: String)
    ensures
        r@ == last_name(path.deep_view()),
{
    if path.len() > 0 {
        assert(path.deep_view().last() == path@[path@.len() - 1]@);
        path[path.len() - 1].clone()
    } else {
        String::new()
    }
}

/// The last names of the first `k` paths; a path without names has none.
pub open spec fn last_names(paths: Seq<Seq<Seq<char>>>, k: int) -> Seq<Seq<char>>
    decreases k,
{
    if k <= 0 || k > paths.len() {
        Seq::empty()
    } else if paths[k - 1].len() == 0 {
        last_names(paths, k - 1)
    } else {
        last_names(paths, k - 1).push(paths[k - 1].last())
    }
}

/// The macros that the first `k` attributes derive.
pub open spec fn derives_of(attributes: Seq<RsAttributeModel>, k: int) -> Seq<Seq<char>>
    decreases k,
{
    if k <= 0 || k > attributes.len() {
        Seq::empty()
    } else {
        let before = derives_of(attributes, k - 1);
        let a = attributes[k - 1];
        match a.paths {
            Some(paths) => if a.ident == Some("derive"@) {
                before + last_names(paths, paths.len() as int)
            } else {
                before
            },
            None => before,
        }
    }
}

fn list_last_names(paths: &Vec<Vec<String>>) -> (r: Vec<String>)
    ensures
        r.deep_view() == last_names(paths.deep_view(), paths@.len() as int),
{
    let mut out: Vec<String> = Vec::new();
    assert(out.deep_view() =~= Seq::empty());
    let mut i: usize = 0;
    while i < paths.len()
        invariant
            i <= paths@.len(),
            out.deep_view() == last_names(paths.deep_view(), i as int),
        decreases paths@.len() - i,
    {
        assert(paths.deep_view()[i as int] == paths@[i as int].deep_view());
        if paths[i].len() != 0 {
            append_item(&mut out, get_last_name(&paths[i]));
        }
        i += 1;
    }
    out
}

fn is_named(t: &Option<String>, wanted: &str) -> (b: bool)
    ensures
        b == (t.deep_view() == Some(wanted@)),
{
    match t {
        Some(s) => text::same(s.as_str(), wanted),
        None => false,
    }
}

fn extract_derives(attributes: &Vec<RsAttribute>) -> (r: Vec<String>)
    ensures
        r.deep_view() == derives_of(attributes.deep_view(), attributes@.len() as int),
{
    let mut out: Vec<String> = Vec::new();
    assert(out.deep_view() =~= Seq::empty());
    let mut i: usize = 0;
    while i < attributes.len()
        invariant
            i <= attributes@.len(),
            out.deep_view() == derives_of(attributes.deep_view(), i as int),
        decreases attributes@.len() - i,
    {
        assert(attributes.deep_view()[i as int] == attributes@[i as int].deep_view());
        if let Some(paths) = &attributes[i].paths {
            if is_named(&attributes[i].ident, "derive") {
                append_all(&mut out, list_last_names(paths));
            }
        }
        i += 1;
    }
    out
}

/// A field of a struct, or of a variant, whose fields are all public.
pub open spec fn field_of(name: Seq<char>, f: RsFieldModel, all_public: bool) -> FieldInfoModel {
    FieldInfoModel {
        name,
        type_repr: repr_of(f.ty),
        visibility: if f.public || all_public {
            Visibility::Public
        } else {
            Visibility::Private
        },
    }
}

/// The fields of a struct or a variant. Those of a tuple are named by their positions.
pub open spec fn fields_of(fields: RsFieldsModel, all_public: bool) -> Seq<FieldInfoModel> {
    match fields {
        RsFieldsModel::Named(fs) => fs.map_values(
            |f: RsFieldModel|
                field_of(
                    match f.name {
                        Some(n) => n,
                        None => Seq::empty(),
                    },
                    f,
                    all_public,
                ),
        ),
        RsFieldsModel::Unnamed(fs) => Seq::new(
            fs.len(),
            |i: int| field_of(text::decimal(i as nat), fs[i], all_public),
        ),
        RsFieldsModel::Unit => Seq::empty(),
    }
}

fn make_field(name: String, f: &RsField, all_public: bool) -> (r: FieldInfo)
    ensures
        r.deep_view() == field_of(name@, f.deep_view(), all_public),
{
    let visibility = if f.public || all_public {
        Visibility::Public
    } else {
        Visibility::Private
    };
    FieldInfo { name, type_repr: type_to_repr(&f.ty), visibility }
}

fn make_fields(fields: &RsFields, all_public: bool) -> (r: Vec<FieldInfo>)
    ensures
        r.deep_view() == fields_of(fields.deep_view(), all_public),
{
    let mut out: Vec<FieldInfo> = Vec::new();
    let ghost all = fields_of(fields.deep_view(), all_public);
    match fields {
        RsFields::Named(fs) => {
            let mut i: usize = 0;
            while i < fs.len()
                invariant
                    i <= fs@.len(),
                    all == fields_of(RsFieldsModel::Named(fs.deep_view()), all_public),
                    all.len() == fs@.len(),
                    out@.len() == i,
                    forall|j: int| 0 <= j < i ==> (#[trigger] out@[j]).deep_view() == all[j],
                decreases fs@.len() - i,
            {
                assert(fs.deep_view()[i as int] == fs@[i as int].deep_view());
                let name = match &fs[i].name {
                    Some(n) => n.clone(),
                    None => String::new(),
                };
                out.push(make_field(name, &fs[i], all_public));
                i += 1;
            }
        },
        RsFields::Unnamed(fs) => {
            let mut i: usize = 0;
            while i < fs.len()
                invariant
                    i <= fs@.len(),
                    all == fields_of(RsFieldsModel::Unnamed(fs.deep_view()), all_public),
                    all.len() == fs@.len(),
                    out@.len() == i,
                    forall|j: int| 0 <= j < i ==> (#[trigger] out@[j]).deep_view() == all[j],
                decreases fs@.len() - i,
            {
                assert(fs.deep_view()[i as int] == fs@[i as int].deep_view());
                out.push(make_field(text::usize_string(i), &fs[i], all_public));
                i += 1;
            }
        },
        RsFields::Unit => {},
    }
    assert(out.deep_view() =~= all);
    out
}

pub open spec fn variants_of(variants: Seq<(Seq<char>, RsFieldsModel)>) -> Seq<VariantInfoModel> {
    variants.map_values(
        |v: (Seq<char>, RsFieldsModel)|
            VariantInfoModel { name: v.0, fields: fields_of(v.1, true) },
    )
}

fn make_variants(variants: &Vec<(String, RsFields)>) -> (r: Vec<VariantInfo>)
    ensures
        r.deep_view() == variants_of(variants.deep_view()),
{
    let mut out: Vec<VariantInfo> = Vec::new();
    let ghost all = variants_of(variants.deep_view());
    let mut i: usize = 0;
    while i < variants.len()
        invariant
            i <= variants@.len(),
            all == variants_of(variants.deep_view()),
            out@.len() == i,
            forall|j: int| 0 <= j < i ==> (#[trigger] out@[j]).deep_view() == all[j],
        decreases variants@.len() - i,
    {
        assert(variants.deep_view()[i as int] == variants@[i as int].deep_view());
        let v = &variants[i];
        out.push(VariantInfo { name: v.0.clone(), fields: make_fields(&v.1, true) });
        i += 1;
    }
    assert(out.deep_view() =~= all);
    out
}

// ─── Items ────────────────────────────────────────────────────────────────────

/// The module with a type definition.
pub open spec fn with_definition(m: ExtractedModuleModel, ti: TypeInfoModel) -> ExtractedModuleModel {
    ExtractedModuleModel { type_definitions: with_entry(m.type_definitions, ti.name, ti), ..m }
}

/// The module with a name among its state variables.
pub open spec fn with_state(m: ExtractedModuleModel, name: Seq<char>) -> ExtractedModuleModel {
    ExtractedModuleModel { state_variables: m.state_variables.push(name), ..m }
}

/// The module with the signature and the types of a function.
pub open spec fn with_description(
    m: ExtractedModuleModel,
    name: Seq<char>,
    sig: RsSignatureModel,
) -> ExtractedModuleModel {
    ExtractedModuleModel {
        function_signatures: with_entry(m.function_signatures, name, signature_text(sig)),
        function_info: with_entry(m.function_info, name, function_info_of(sig)),
        ..m
    }
}

/// Whether an attribute makes a module one for tests.
pub open spec fn is_test_attribute(a: RsAttributeModel) -> bool {
    a.segments.contains("cfg"@) && text::contains(a.written, "test"@)
}

pub open spec fn is_test_module(attributes: Seq<RsAttributeModel>) -> bool {
    exists|i: int| 0 <= i < attributes.len() && is_test_attribute(#[trigger] attributes[i])
}

/// The module with a trait among those that a known type implements.
pub open spec fn with_trait_impl(
    m: ExtractedModuleModel,
    owner: Seq<char>,
    trait_name: Seq<char>,
) -> ExtractedModuleModel {
    match lookup(m.type_definitions, owner) {
        Some(ti) => ExtractedModuleModel {
            type_definitions: with_entry(
                m.type_definitions,
                owner,
                TypeInfoModel { trait_impls: with_name(ti.trait_impls, trait_name), ..ti },
            ),
            ..m
        },
        None => m,
    }
}

/// The name of a method: behind that of its type and a dot.
pub open spec fn qualified(self_path: Option<Seq<Seq<char>>>, name: Seq<char>) -> Seq<char> {
    match self_path {
        Some(path) => if path.len() > 0 {
            path.last() + "."@ + name
        } else {
            name
        },
        None => name,
    }
}

/// The module with a member of an impl block.
pub open spec fn with_member(
    m: ExtractedModuleModel,
    self_path: Option<Seq<Seq<char>>>,
    member: RsMemberModel,
) -> ExtractedModuleModel {
    match member {
        RsMemberModel::Other => m,
        RsMemberModel::Method { public, signature } => {
            let name = qualified(self_path, signature.name);
            let described = with_description(m, name, signature);
            if public {
                ExtractedModuleModel {
                    public_functions: with_name(m.public_functions, name),
                    ..described
                }
            } else if m.public_functions.contains(name) {
                described
            } else {
                ExtractedModuleModel {
                    private_functions: with_name(m.private_functions, name),
                    ..described
                }
            }
        },
    }
}

/// The module with the first `k` members of an impl block.
pub open spec fn with_members(
    m: ExtractedModuleModel,
    self_path: Option<Seq<Seq<char>>>,
    members: Seq<RsMemberModel>,
    k: int,
) -> ExtractedModuleModel
    decreases k,
{
    if k <= 0 || k > members.len() {
        m
    } else {
        with_member(with_members(m, self_path, members, k - 1), self_path, members[k - 1])
    }
}

/// The module with what an item adds to it. Structs, enums, constants and static variables are
/// state; a constant named `_` has no name. Items of test modules add nothing.
pub open spec fn with_item(m: ExtractedModuleModel, item: RsItemModel) -> ExtractedModuleModel
    decreases item, 0int,
{
    match item {
        RsItemModel::Use(tree) => {
            let paths = flattened(Seq::empty(), tree);
            ExtractedModuleModel {
                imports: with_roots(m.imports, paths, paths.len() as int),
                ..m
            }
        },
        RsItemModel::Fn { public, signature } => {
            let described = with_description(m, signature.name, signature);
            if public {
                ExtractedModuleModel {
                    public_functions: m.public_functions.push(signature.name),
                    ..described
                }
            } else {
                ExtractedModuleModel {
                    private_functions: m.private_functions.push(signature.name),
                    ..described
                }
            }
        },
        RsItemModel::Struct { name, generics, fields, attributes } => with_definition(
            with_state(m, name),
            (TypeInfoModel {
                name,
                kind: TypeKind::Struct,
                generics: generics_of(generics, generics.len() as int),
                fields: fields_of(fields, false),
                variants: Seq::empty(),
                trait_impls: Seq::empty(),
                derives: derives_of(attributes, attributes.len() as int),
            }),
        ),
        RsItemModel::Enum { name, generics, variants, attributes } => with_definition(
            with_state(m, name),
            (TypeInfoModel {
                name,
                kind: TypeKind::Enum,
                generics: generics_of(generics, generics.len() as int),
                fields: Seq::empty(),
                variants: variants_of(variants),
                trait_impls: Seq::empty(),
                derives: derives_of(attributes, attributes.len() as int),
            }),
        ),
        RsItemModel::Trait { name, generics, supertraits } => with_definition(
            m,
            (TypeInfoModel {
                name,
                kind: TypeKind::Trait,
                generics: generics_of(generics, generics.len() as int),
                fields: Seq::empty(),
                variants: Seq::empty(),
                trait_impls: supertraits,
                derives: Seq::empty(),
            }),
        ),
        RsItemModel::TypeAlias { name, generics } => with_definition(
            m,
            (TypeInfoModel {
                name,
                kind: TypeKind::TypeAlias,
                generics: generics_of(generics, generics.len() as int),
                fields: Seq::empty(),
                variants: Seq::empty(),
                trait_impls: Seq::empty(),
                derives: Seq::empty(),
            }),
        ),
        RsItemModel::Mod { attributes, items } => match items {
            Some(items) => if is_test_module(attributes) {
                m
            } else {
                with_items(m, items, items.len() as int)
            },
            None => m,
        },
        RsItemModel::Impl { trait_path, self_path, members } => with_members(
            match (trait_path, self_path) {
                (Some(t), Some(s)) => with_trait_impl(m, last_name(s), last_name(t)),
                _ => m,
            },
            self_path,
            members,
            members.len() as int,
        ),
        RsItemModel::Variable { name, inner } => with_items(
            if name == "_"@ {
                m
            } else {
                with_state(m, name)
            },
            inner,
            inner.len() as int,
        ),
        RsItemModel::Other { inner } => with_items(m, inner, inner.len() as int),
    }
}

/// The module with what the first `k` items add to it.
pub open spec fn with_items(m: ExtractedModuleModel, items: Seq<RsItemModel>, k: int) ->
    ExtractedModuleModel
    decreases items, k,
{
    if k <= 0 || k > items.len() {
        m
    } else {
        with_item(with_items(m, items, k - 1), items[k - 1])
    }
}

/// The module with the traits that the impl blocks of an item are for, whether they stand
/// before or behind the definitions of the types.
pub open spec fn with_traits(m: ExtractedModuleModel, item: RsItemModel) -> ExtractedModuleModel
    decreases item, 0int,
{
    match item {
        RsItemModel::Mod { attributes, items } => match items {
            Some(items) => if is_test_module(attributes) {
                m
            } else {
                with_all_traits(m, items, items.len() as int)
            },
            None => m,
        },
        RsItemModel::Impl { trait_path, self_path, members } => match (trait_path, self_path) {
            (Some(t), Some(s)) => with_trait_impl(m, last_name(s), last_name(t)),
            _ => m,
        },
        RsItemModel::Variable { name, inner } => with_all_traits(m, inner, inner.len() as int),
        RsItemModel::Other { inner } => with_all_traits(m, inner, inner.len() as int),
        _ => m,
    }
}

/// The module with the traits that the impl blocks of the first `k` items are for.
pub open spec fn with_all_traits(m: ExtractedModuleModel, items: Seq<RsItemModel>, k: int) ->
    ExtractedModuleModel
    decreases items, k,
{
    if k <= 0 || k > items.len() {
        m
    } else {
        with_traits(with_all_traits(m, items, k - 1), items[k - 1])
    }
}

fn add_description(module: &mut ExtractedModule, name: &String, sig: &RsSignature)
    ensures
        final(module).deep_view() == with_description(
            old(module).deep_view(),
            name@,
            sig.deep_view(),
        ),
        old(module).wf() ==> final(module).wf(),
{
    module.function_signatures.insert(name.clone(), format_signature(sig));
    module.function_info.insert(name.clone(), build_function_info(sig));
}

fn make_definition(
    name: &String,
    kind: TypeKind,
    generics: &Vec<RsGeneric>,
    fields: Vec<FieldInfo>,
    variants: Vec<VariantInfo>,
    trait_impls: Vec<String>,
    derives: Vec<String>,
) -> (r: TypeInfo)
    ensures
        r.deep_view() == (TypeInfoModel {
            name: name@,
            kind,
            generics: generics_of(generics.deep_view(), generics@.len() as int),
            fields: fields.deep_view(),
            variants: variants.deep_view(),
            trait_impls: trait_impls.deep_view(),
            derives: derives.deep_view(),
        }),
{
    TypeInfo {
        name: name.clone(),
        kind,
        generics: extract_generics(generics),
        fields,
        variants,
        trait_impls,
        derives,
    }
}

fn add_definition(module: &mut ExtractedModule, name: &String, ti: TypeInfo)
    requires
        ti.name@ == name@,
    ensures
        final(module).deep_view() == with_definition(old(module).deep_view(), ti.deep_view()),
        old(module).wf() ==> final(module).wf(),
{
    module.type_definitions.insert(name.clone(), ti);
}

fn for_tests(attributes: &Vec<RsAttribute>) -> (b: bool)
    ensures
        b == is_test_module(attributes.deep_view()),
{
    let cfg = "cfg".to_owned();
    let ghost all = attributes.deep_view();
    let mut i: usize = 0;
    while i < attributes.len()
        invariant
            i <= attributes@.len(),
            all == attributes.deep_view(),
            cfg@ == "cfg"@,
            forall|j: int| 0 <= j < i ==> !is_test_attribute(#[trigger] all[j]),
        decreases attributes@.len() - i,
    {
        let a = &attributes[i];
        assert(all[i as int] == a.deep_view());
        if list_contains(a.segments.as_slice(), &cfg) && text::text_contains(
            a.written.as_str(),
            "test",
        ) {
            assert(is_test_attribute(all[i as int]));
            return true;
        }
        i += 1;
    }
    false
}

fn add_trait_impl(module: &mut ExtractedModule, owner: &String, trait_name: &String)
    ensures
        final(module).deep_view() == with_trait_impl(
            old(module).deep_view(),
            owner@,
            trait_name@,
        ),
        old(module).wf() ==> final(module).wf(),
{
    let known = match module.type_definitions.get(owner.as_str()) {
        Some(ti) => Some(ti.duplicate()),
        None => None,
    };
    if let Some(ti) = known {
        let mut ti = ti;
        add_name(&mut ti.trait_impls, trait_name);
        module.type_definitions.insert(owner.clone(), ti);
    }
}

fn make_qualified(self_path: &Option<Vec<String>>, name: &String) -> (r: String)
    ensures
        r@ == qualified(self_path.deep_view(), name@),
{
    match self_path {
        Some(path) => {
            if path.len() > 0 {
                let mut out = get_last_name(path);
                out.append(".");
                out.append(name.as_str());
                out
            } else {
                name.clone()
            }
        },
        None => name.clone(),
    }
}

fn add_members(
    module: &mut ExtractedModule,
    self_path: &Option<Vec<String>>,
    members: &Vec<RsMember>,
)
    ensures
        final(module).deep_view() == with_members(
            old(module).deep_view(),
            self_path.deep_view(),
            members.deep_view(),
            members@.len() as int,
        ),
        old(module).wf() ==> final(module).wf(),
{
    let ghost before = module.deep_view();
    let ghost good = module.wf();
    let mut i: usize = 0;
    while i < members.len()
        invariant
            i <= members@.len(),
            module.deep_view() == with_members(
                before,
                self_path.deep_view(),
                members.deep_view(),
                i as int,
            ),
            good ==> module.wf(),
        decreases members@.len() - i,
    {
        assert(members.deep_view()[i as int] == members@[i as int].deep_view());
        match &members[i] {
            RsMember::Method { public, signature } => {
                let name = make_qualified(self_path, &signature.name);
                add_description(module, &name, signature);
                if *public {
                    add_name(&mut module.public_functions, &name);
                } else if !list_contains(module.public_functions.as_slice(), &name) {
                    add_name(&mut module.private_functions, &name);
                }
            },
            RsMember::Other => {},
        }
        i += 1;
    }
}

fn no_fields() -> (r: Vec<FieldInfo>)
    ensures
        r.deep_view() == Seq::<FieldInfoModel>::empty(),
{
    let r: Vec<FieldInfo> = Vec::new();
    assert(r.deep_view() =~= Seq::empty());
    r
}

fn no_variants() -> (r: Vec<VariantInfo>)
    ensures
        r.deep_view() == Seq::<VariantInfoModel>::empty(),
{
    let r: Vec<VariantInfo> = Vec::new();
    assert(r.deep_view() =~= Seq::empty());
    r
}

fn no_names() -> (r: Vec<String>)
    ensures
        r.deep_view() == Seq::<Seq<char>>::empty(),
{
    let r: Vec<String> = Vec::new();
    assert(r.deep_view() =~= Seq::empty());
    r
}

/// Adds what an item holds to a module.
pub fn visit_item(module: &mut ExtractedModule, item: &RsItem)
    ensures
        final(module).deep_view() == with_item(old(module).deep_view(), item.deep_view()),
        old(module).wf() ==> final(module).wf(),
    decreases item,
{
    proof {
        rs_item_model_of_lists(*item);
        reveal_with_fuel(with_item, 2);
        reveal_with_fuel(with_items, 2);
    }
    match item {
        RsItem::Use(tree) => {
            let paths = flatten_use_tree("", tree);
            proof {
                reveal_strlit("");
                assert(""@ =~= Seq::empty());
            }
            add_roots(&mut module.imports, &paths);
        },
        RsItem::Fn { public, signature } => {
            add_description(module, &signature.name, signature);
            if *public {
                append_item(&mut module.public_functions, signature.name.clone());
            } else {
                append_item(&mut module.private_functions, signature.name.clone());
            }
        },
        RsItem::Struct { name, generics, fields, attributes } => {
            append_item(&mut module.state_variables, name.clone());
            let ti = make_definition(
                name,
                TypeKind::Struct,
                generics,
                make_fields(fields, false),
                no_variants(),
                no_names(),
                extract_derives(attributes),
            );
            add_definition(module, name, ti);
        },
        RsItem::Enum { name, generics, variants, attributes } => {
            append_item(&mut module.state_variables, name.clone());
            let ti = make_definition(
                name,
                TypeKind::Enum,
                generics,
                no_fields(),
                make_variants(variants),
                no_names(),
                extract_derives(attributes),
            );
            add_definition(module, name, ti);
        },
        RsItem::Trait { name, generics, supertraits } => {
            let ti = make_definition(
                name,
                TypeKind::Trait,
                generics,
                no_fields(),
                no_variants(),
                supertraits.duplicate(),
                no_names(),
            );
            add_definition(module, name, ti);
        },
        RsItem::TypeAlias { name, generics } => {
            let ti = make_definition(
                name,
                TypeKind::TypeAlias,
                generics,
                no_fields(),
                no_variants(),
                no_names(),
                no_names(),
            );
            add_definition(module, name, ti);
        },
        RsItem::Mod { attributes, items } => {
            if let Some(items) = items {
                if !for_tests(attributes) {
                    visit_items(module, items);
                }
            }
        },
        RsItem::Impl { trait_path, self_path, members } => {
            match (trait_path, self_path) {
                (Some(t), Some(s)) => {
                    let trait_name = get_last_name(t);
                    let owner = get_last_name(s);
                    add_trait_impl(module, &owner, &trait_name);
                },
                _ => {},
            }
            add_members(module, self_path, members);
        },
        RsItem::Variable { name, inner } => {
            if !text::same(name.as_str(), "_") {
                append_item(&mut module.state_variables, name.clone());
            }
            visit_items(module, inner);
        },
        RsItem::Other { inner } => {
            visit_items(module, inner);
        },
    }
}

fn visit_items(module: &mut ExtractedModule, items: &Vec<RsItem>)
    ensures
        final(module).deep_view() == with_items(
            old(module).deep_view(),
            items.deep_view(),
            items@.len() as int,
        ),
        old(module).wf() ==> final(module).wf(),
    decreases items,
{
    let ghost before = module.deep_view();
    let ghost good = module.wf();
    let mut i: usize = 0;
    while i < items.len()
        invariant
            i <= items@.len(),
            module.deep_view() == with_items(before, items.deep_view(), i as int),
            good ==> module.wf(),
        decreases items@.len() - i,
    {
        assert(items.deep_view()[i as int] == items@[i as int].deep_view());
        proof {
            reveal_with_fuel(with_items, 2);
        }
        visit_item(module, &items[i]);
        i += 1;
    }
}

fn add_traits(module: &mut ExtractedModule, item: &RsItem)
    ensures
        final(module).deep_view() == with_traits(old(module).deep_view(), item.deep_view()),
        old(module).wf() ==> final(module).wf(),
    decreases item,
{
    proof {
        rs_item_model_of_lists(*item);
        reveal_with_fuel(with_traits, 2);
        reveal_with_fuel(with_all_traits, 2);
    }
    match item {
        RsItem::Mod { attributes, items } => {
            if let Some(items) = items {
                if !for_tests(attributes) {
                    add_all_traits(module, items);
                }
            }
        },
        RsItem::Impl { trait_path, self_path, members: _ } => {
            match (trait_path, self_path) {
                (Some(t), Some(s)) => {
                    let trait_name = get_last_name(t);
                    let owner = get_last_name(s);
                    add_trait_impl(module, &owner, &trait_name);
                },
                _ => {},
            }
        },
        RsItem::Variable { name: _, inner } => {
            add_all_traits(module, inner);
        },
        RsItem::Other { inner } => {
            add_all_traits(module, inner);
        },
        _ => {},
    }
}

fn add_all_traits(module: &mut ExtractedModule, items: &Vec<RsItem>)
    ensures
        final(module).deep_view() == with_all_traits(
            old(module).deep_view(),
            items.deep_view(),
            items@.len() as int,
        ),
        old(module).wf() ==> final(module).wf(),
    decreases items,
{
    let ghost before = module.deep_view();
    let ghost good = module.wf();
    let mut i: usize = 0;
    while i < items.len()
        invariant
            i <= items@.len(),
            module.deep_view() == with_all_traits(before, items.deep_view(), i as int),
            good ==> module.wf(),
        decreases items@.len() - i,
    {
        assert(items.deep_view()[i as int] == items@[i as int].deep_view());
        proof {
            reveal_with_fuel(with_all_traits, 2);
        }
        add_traits(module, &items[i]);
        i += 1;
    }
}

// ─── The extractor ────────────────────────────────────────────────────────────

/// Extracts from Rust sources.
#[derive(Debug, Clone, Copy)]
pub struct RustExtractor;

impl RustExtractor {
    pub fn new() -> (r: Self)
        ensures
            r == RustExtractor,
    {
        RustExtractor
    }
}

/// Parses a source file into its items.
pub fn parse_rust_items(source: &str) -> (r: Result<Vec<RsItem>, String>)
    ensures
        result_view(r) == rust_items(source@),
{
    parse_items(source)
}

/// The module that the items of a source file make up.
pub open spec fn items_module(stem: Option<Seq<char>>, path: Seq<char>, items: Seq<RsItemModel>) ->
    ExtractedModuleModel {
    let n = items.len() as int;
    with_all_traits(with_items(new_module(stem, path, "rust"@), items, n), items, n)
}

/// Makes up a module from the items of a source file.
pub fn extract_items(stem: Option<&str>, path: &str, items: &Vec<RsItem>) -> (r: ExtractedModule)
    ensures
        r.deep_view() == items_module(stem.deep_view(), path@, items.deep_view()),
        r.wf(),
{
    let mut module = start_module(stem, path, "rust");
    visit_items(&mut module, items);
    add_all_traits(&mut module, items);
    module
}

/// What is extracted from a source text.
pub open spec fn rust_extraction(stem: Option<Seq<char>>, path: Seq<char>, content: Seq<char>) ->
    Result<ExtractedModuleModel, Seq<char>> {
    match rust_items(content) {
        Ok(items) => Ok(items_module(stem, path, items)),
        Err(_) => Err("Failed to parse Rust source file"@),
    }
}

/// Extracts a module from a source text.
pub fn parse_rust(stem: Option<&str>, path: &str, content: &str) -> (r: Result<
    ExtractedModule,
    String,
>)
    ensures
        result_view(r) == rust_extraction(stem.deep_view(), path@, content@),
        r matches Ok(m) ==> m.wf(),
{
    match parse_rust_items(content) {
        Ok(items) => Ok(extract_items(stem, path, &items)),
        Err(_) => Err("Failed to parse Rust source file".to_owned()),
    }
}

// ─── Laws ─────────────────────────────────────────────────────────────────────

/// Whether one list begins with another.
pub open spec fn extends(longer: Seq<Seq<char>>, list: Seq<Seq<char>>) -> bool {
    list.len() <= longer.len() && longer.take(list.len() as int) == list
}

proof fn lemma_extends_trans(a: Seq<Seq<char>>, b: Seq<Seq<char>>, c: Seq<Seq<char>>)
    requires
        extends(b, a),
        extends(c, b),
    ensures
        extends(c, a),
{
    assert(c.take(a.len() as int) =~= c.take(b.len() as int).take(a.len() as int));
}

proof fn lemma_members_keep_state(
    m: ExtractedModuleModel,
    self_path: Option<Seq<Seq<char>>>,
    members: Seq<RsMemberModel>,
    k: int,
)
    ensures
        with_members(m, self_path, members, k).state_variables == m.state_variables,
    decreases k,
{
    if 0 < k <= members.len() {
        lemma_members_keep_state(m, self_path, members, k - 1);
    }
}

/// No item takes a state variable away from a module.
pub proof fn state_variables_stay(m: ExtractedModuleModel, item: RsItemModel)
    ensures
        extends(with_item(m, item).state_variables, m.state_variables),
    decreases item, 0int,
{
    let before = m.state_variables;
    assert(before.take(before.len() as int) =~= before);
    match item {
        RsItemModel::Struct { name, generics, fields, attributes } => {
            assert(before.push(name).take(before.len() as int) =~= before);
        },
        RsItemModel::Enum { name, generics, variants, attributes } => {
            assert(before.push(name).take(before.len() as int) =~= before);
        },
        RsItemModel::Mod { attributes, items } => {
            if let Some(items) = items {
                lemma_items_keep_state(m, items, items.len() as int);
            }
        },
        RsItemModel::Impl { trait_path, self_path, members } => {
            let known = match (trait_path, self_path) {
                (Some(t), Some(s)) => with_trait_impl(m, last_name(s), last_name(t)),
                _ => m,
            };
            lemma_members_keep_state(known, self_path, members, members.len() as int);
        },
        RsItemModel::Variable { name, inner } => {
            let named = if name == "_"@ {
                m
            } else {
                with_state(m, name)
            };
            assert(named.state_variables.take(before.len() as int) =~= before);
            lemma_items_keep_state(named, inner, inner.len() as int);
            lemma_extends_trans(
                before,
                named.state_variables,
                with_item(m, item).state_variables,
            );
        },
        RsItemModel::Other { inner } => {
            lemma_items_keep_state(m, inner, inner.len() as int);
        },
        _ => {},
    }
}

proof fn lemma_items_keep_state(m: ExtractedModuleModel, items: Seq<RsItemModel>, k: int)
    ensures
        extends(with_items(m, items, k).state_variables, m.state_variables),
    decreases items, k,
{
    let before = m.state_variables;
    assert(before.take(before.len() as int) =~= before);
    if 0 < k <= items.len() {
        let done = with_items(m, items, k - 1);
        lemma_items_keep_state(m, items, k - 1);
        state_variables_stay(done, items[k - 1]);
        lemma_extends_trans(
            before,
            done.state_variables,
            with_items(m, items, k).state_variables,
        );
    }
}

/// Every constant and static variable with a name is a state variable of its module.
pub proof fn variables_are_state(
    m: ExtractedModuleModel,
    name: Seq<char>,
    inner: Seq<RsItemModel>,
)
    requires
        name != "_"@,
    ensures
        with_item(m, RsItemModel::Variable { name, inner }).state_variables.contains(name),
{
    let named = with_state(m, name);
    let after = with_item(m, RsItemModel::Variable { name, inner });
    lemma_items_keep_state(named, inner, inner.len() as int);
    let n = m.state_variables.len() as int;
    assert(named.state_variables[n] == name);
    assert(after.state_variables.take(named.state_variables.len() as int)[n] == name);
    assert(after.state_variables[n] == name);
}

/// Whether an item implements a trait for a type, itself or in an item that stands in it.
pub open spec fn implements(item: RsItemModel, owner: Seq<char>, trait_name: Seq<char>) -> bool
    decreases item, 0int,
{
    match item {
        RsItemModel::Impl { trait_path, self_path, members } => match (trait_path, self_path) {
            (Some(t), Some(s)) => last_name(s) == owner && last_name(t) == trait_name,
            _ => false,
        },
        RsItemModel::Mod { attributes, items } => match items {
            Some(items) => !is_test_module(attributes) && any_implements(items, owner, trait_name),
            None => false,
        },
        RsItemModel::Variable { name, inner } => any_implements(inner, owner, trait_name),
        RsItemModel::Other { inner } => any_implements(inner, owner, trait_name),
        _ => false,
    }
}

pub open spec fn any_implements(
    items: Seq<RsItemModel>,
    owner: Seq<char>,
    trait_name: Seq<char>,
) -> bool
    decreases items,
{
    exists|i: int| 0 <= i < items.len() && implements(#[trigger] items[i], owner, trait_name)
}

/// Whether a type, if it is defined, is listed to implement a trait.
pub open spec fn is_listed(m: ExtractedModuleModel, owner: Seq<char>, trait_name: Seq<char>) -> bool {
    lookup(m.type_definitions, owner) matches Some(ti) ==> ti.trait_impls.contains(trait_name)
}

proof fn lemma_trait_impl(
    m: ExtractedModuleModel,
    other: Seq<char>,
    other_trait: Seq<char>,
    owner: Seq<char>,
    trait_name: Seq<char>,
)
    requires
        is_listed(m, owner, trait_name) || (owner == other && trait_name == other_trait),
    ensures
        is_listed(with_trait_impl(m, other, other_trait), owner, trait_name),
{
    match lookup(m.type_definitions, other) {
        Some(ti) => {
            let traits = with_name(ti.trait_impls, other_trait);
            let added = TypeInfoModel { trait_impls: traits, ..ti };
            lemma_with_name(ti.trait_impls, other_trait);
            if owner == other {
                lookup_after_insert(m.type_definitions, other, added);
            } else {
                lookup_of_other_key(m.type_definitions, other, added, owner);
            }
        },
        None => {},
    }
}

proof fn lemma_with_traits(
    m: ExtractedModuleModel,
    item: RsItemModel,
    owner: Seq<char>,
    trait_name: Seq<char>,
)
    requires
        is_listed(m, owner, trait_name) || implements(item, owner, trait_name),
    ensures
        is_listed(with_traits(m, item), owner, trait_name),
    decreases item, 0int,
{
    match item {
        RsItemModel::Impl { trait_path, self_path, members } => {
            if let (Some(t), Some(s)) = (trait_path, self_path) {
                lemma_trait_impl(m, last_name(s), last_name(t), owner, trait_name);
            }
        },
        RsItemModel::Mod { attributes, items } => {
            if let Some(items) = items {
                if !is_test_module(attributes) {
                    lemma_with_all_traits(m, items, items.len() as int, owner, trait_name);
                }
            }
        },
        RsItemModel::Variable { name, inner } => {
            lemma_with_all_traits(m, inner, inner.len() as int, owner, trait_name);
        },
        RsItemModel::Other { inner } => {
            lemma_with_all_traits(m, inner, inner.len() as int, owner, trait_name);
        },
        _ => {},
    }
}

proof fn lemma_with_all_traits(
    m: ExtractedModuleModel,
    items: Seq<RsItemModel>,
    k: int,
    owner: Seq<char>,
    trait_name: Seq<char>,
)
    requires
        0 <= k <= items.len(),
        is_listed(m, owner, trait_name) || exists|i: int|
            0 <= i < k && implements(#[trigger] items[i], owner, trait_name),
    ensures
        is_listed(with_all_traits(m, items, k), owner, trait_name),
    decreases items, k,
{
    if k > 0 {
        if !is_listed(m, owner, trait_name) {
            let i = choose|i: int|
                0 <= i < k && implements(#[trigger] items[i], owner, trait_name);
            if i < k - 1 {
                lemma_with_all_traits(m, items, k - 1, owner, trait_name);
            }
        } else {
            lemma_with_all_traits(m, items, k - 1, owner, trait_name);
        }
        lemma_with_traits(with_all_traits(m, items, k - 1), items[k - 1], owner, trait_name);
    }
}

/// Every type of a source file is listed with each trait that an impl block of the file is
/// for, wherever the block stands.
pub proof fn implemented_traits_are_listed(
    stem: Option<Seq<char>>,
    path: Seq<char>,
    items: Seq<RsItemModel>,
    owner: Seq<char>,
    trait_name: Seq<char>,
)
    requires
        any_implements(items, owner, trait_name),
    ensures
        is_listed(items_module(stem, path, items), owner, trait_name),
{
    let n = items.len() as int;
    lemma_with_all_traits(
        with_items(new_module(stem, path, "rust"@), items, n),
        items,
        n,
        owner,
        trait_name,
    );
}

} // verus!

//! Extraction from Flow9 source files.
use vstd::prelude::*;

use super::flow9_ast::{
    flow9_type_model_of_lists, ArgType, ArgTypeModel, Decl, DeclModel, Flow9Type, Flow9TypeModel,
    FunArg, FunArgModel, TypeName, TypeNameModel,
};
use super::{new_module, start_module, ExtractedModule, ExtractedModuleModel};
use crate::data::{
    add_name, has_key, lemma_with_name, list_contains, result_view, with_entry, with_name,
    Duplicate, StringMap,
};
use crate::flow9_parser::decls::declared_name;
use crate::flow9_parser::exports::{
    declared_in_block, exports_are_declared_in_blocks, exports_are_sound, is_exported,
};
use crate::flow9_parser::{checked_parse_flow9_source, source_reading};
use crate::text;
use crate::type_formula::eval::{
    any_field_named, any_variant_named, has_field_named, has_variant_named,
};
use crate::types::{
    type_model_of_lists, FieldInfo, FieldInfoModel, FunctionInfo, FunctionInfoModel, ParamInfo,
    ParamInfoModel, TypeInfo, TypeInfoModel, TypeKind, TypeRepr, TypeReprModel, VariantInfo,
    VariantInfoModel, Visibility,
};

verus! {

// ─── Types ────────────────────────────────────────────────────────────────────

/// A type without arguments, by its name.
pub open spec fn named(name: Seq<char>) -> TypeReprModel {
    TypeReprModel::Named(name)
}

/// A type constructor applied to one argument.
pub open spec fn applied_to_one(name: Seq<char>, arg: TypeReprModel) -> TypeReprModel {
    TypeReprModel::Applied(Box::new(named(name)), seq![arg])
}

/// A Flow9 type as a language-neutral one.
pub open spec fn type_repr_of(t: Flow9TypeModel) -> TypeReprModel
    decreases t,
{
    match t {
        Flow9TypeModel::Int => named("int"@),
        Flow9TypeModel::Double => named("double"@),
        Flow9TypeModel::Bool => named("bool"@),
        Flow9TypeModel::Str => named("string"@),
        Flow9TypeModel::Flow => named("flow"@),
        Flow9TypeModel::NativeType => named("native"@),
        Flow9TypeModel::Void => TypeReprModel::Unit,
        Flow9TypeModel::Named(name) => named(name),
        Flow9TypeModel::TypeVar(name) => named(name),
        Flow9TypeModel::Array(inner) => applied_to_one("Array"@, type_repr_of(*inner)),
        Flow9TypeModel::Ref(inner) => applied_to_one("ref"@, type_repr_of(*inner)),
        Flow9TypeModel::FnType(params, ret) => TypeReprModel::FnPointer {
            params: type_reprs_of(params),
            ret: Box::new(type_repr_of(*ret)),
        },
        Flow9TypeModel::Parameterized(name, args) => TypeReprModel::Applied(
            Box::new(named(name)),
            type_reprs_of(args),
        ),
    }
}

pub open spec fn type_reprs_of(ts: Seq<Flow9TypeModel>) -> Seq<TypeReprModel>
    decreases ts,
{
    Seq::new(
        ts.len(),
        |i: int|
            if 0 <= i < ts.len() {
                type_repr_of(ts[i])
            } else {
                TypeReprModel::Unit
            },
    )
}

proof fn lemma_type_repr_of_lists(t: Flow9TypeModel)
    ensures
        type_repr_of(t) == match t {
            Flow9TypeModel::FnType(params, ret) => TypeReprModel::FnPointer {
                params: type_reprs_of(params),
                ret: Box::new(type_repr_of(*ret)),
            },
            Flow9TypeModel::Parameterized(name, args) => TypeReprModel::Applied(
                Box::new(named(name)),
                type_reprs_of(args),
            ),
            _ => type_repr_of(t),
        },
{
    reveal_with_fuel(type_repr_of, 2);
    reveal_with_fuel(type_reprs_of, 2);
}

pub(crate) fn make_applied_to_one(name: &str, arg: TypeRepr) -> (r: TypeRepr)
    ensures
        r.deep_view() == applied_to_one(name@, arg.deep_view()),
{
    let ghost model = arg.deep_view();
    let mut args: Vec<TypeRepr> = Vec::new();
    args.push(arg);
    assert(args.deep_view() =~= seq![model]);
    let r = TypeRepr::Applied(Box::new(TypeRepr::Named(name.to_owned())), args);
    proof {
        type_model_of_lists(r);
        reveal_with_fuel(crate::types::type_model, 2);
    }
    r
}

fn flow9_type_to_type_repr(t: &Flow9Type) -> (r: TypeRepr)
    ensures
        r.deep_view() == type_repr_of(t.deep_view()),
    decreases t,
{
    proof {
        flow9_type_model_of_lists(*t);
        lemma_type_repr_of_lists(t.deep_view());
    }
    let r = match t {
        Flow9Type::Int => TypeRepr::Named("int".to_owned()),
        Flow9Type::Double => TypeRepr::Named("double".to_owned()),
        Flow9Type::Bool => TypeRepr::Named("bool".to_owned()),
        Flow9Type::Str => TypeRepr::Named("string".to_owned()),
        Flow9Type::Flow => TypeRepr::Named("flow".to_owned()),
        Flow9Type::NativeType => TypeRepr::Named("native".to_owned()),
        Flow9Type::Void => TypeRepr::Unit,
        Flow9Type::Named(name) => TypeRepr::Named(name.clone()),
        Flow9Type::TypeVar(name) => TypeRepr::Named(name.clone()),
        Flow9Type::Array(inner) => {
            let arg = flow9_type_to_type_repr(inner);
            make_applied_to_one("Array", arg)
        },
        Flow9Type::Ref(inner) => {
            let arg = flow9_type_to_type_repr(inner);
            make_applied_to_one("ref", arg)
        },
        Flow9Type::FnType(params, ret) => {
            let params = flow9_types_to_type_reprs(params);
            let ret = flow9_type_to_type_repr(ret);
            TypeRepr::FnPointer { params, ret: Box::new(ret) }
        },
        Flow9Type::Parameterized(name, args) => {
            let args = flow9_types_to_type_reprs(args);
            TypeRepr::Applied(Box::new(TypeRepr::Named(name.clone())), args)
        },
    };
    proof {
        type_model_of_lists(r);
        reveal_with_fuel(crate::types::type_model, 2);
    }
    r
}

fn flow9_types_to_type_reprs(ts: &Vec<Flow9Type>) -> (r: Vec<TypeRepr>)
    ensures
        r.deep_view() == type_reprs_of(ts.deep_view()),
    decreases ts,
{
    let mut out: Vec<TypeRepr> = Vec::new();
    let mut i: usize = 0;
    while i < ts.len()
        invariant
            i <= ts@.len(),
            out@.len() == i,
            forall|j: int|
                0 <= j < i ==> (#[trigger] out@[j]).deep_view() == type_repr_of(ts@[j].deep_view()),
        decreases ts@.len() - i,
    {
        out.push(flow9_type_to_type_repr(&ts[i]));
        i += 1;
    }
    assert(out.deep_view() =~= type_reprs_of(ts.deep_view()));
    out
}

/// How a Flow9 type is written in a signature.
pub open spec fn flow9_text(t: Flow9TypeModel) -> Seq<char>
    decreases t,
{
    match t {
        Flow9TypeModel::Int => "int"@,
        Flow9TypeModel::Double => "double"@,
        Flow9TypeModel::Bool => "bool"@,
        Flow9TypeModel::Str => "string"@,
        Flow9TypeModel::Flow => "flow"@,
        Flow9TypeModel::NativeType => "native"@,
        Flow9TypeModel::Void => "void"@,
        Flow9TypeModel::Named(name) => name,
        Flow9TypeModel::TypeVar(name) => name,
        Flow9TypeModel::Array(inner) => "["@ + flow9_text(*inner) + "]"@,
        Flow9TypeModel::Ref(inner) => "ref "@ + flow9_text(*inner),
        Flow9TypeModel::FnType(params, ret) => "("@ + text::join(flow9_texts(params), ", "@)
            + ") -> "@ + flow9_text(*ret),
        Flow9TypeModel::Parameterized(name, args) => name + "<"@ + text::join(
            flow9_texts(args),
            ", "@,
        ) + ">"@,
    }
}

pub open spec fn flow9_texts(ts: Seq<Flow9TypeModel>) -> Seq<Seq<char>>
    decreases ts,
{
    Seq::new(
        ts.len(),
        |i: int|
            if 0 <= i < ts.len() {
                flow9_text(ts[i])
            } else {
                Seq::empty()
            },
    )
}

proof fn lemma_flow9_text_of_lists(t: Flow9TypeModel)
    ensures
        flow9_text(t) == match t {
            Flow9TypeModel::FnType(params, ret) => "("@ + text::join(flow9_texts(params), ", "@)
                + ") -> "@ + flow9_text(*ret),
            Flow9TypeModel::Parameterized(name, args) => name + "<"@ + text::join(
                flow9_texts(args),
                ", "@,
            ) + ">"@,
            _ => flow9_text(t),
        },
{
    reveal_with_fuel(flow9_text, 2);
    reveal_with_fuel(flow9_texts, 2);
}

fn flow9_type_to_string(t: &Flow9Type) -> (r: String)
    ensures
        r@ == flow9_text(t.deep_view()),
    decreases t,
{
    proof {
        flow9_type_model_of_lists(*t);
        lemma_flow9_text_of_lists(t.deep_view());
    }
    match t {
        Flow9Type::Int => "int".to_owned(),
        Flow9Type::Double => "double".to_owned(),
        Flow9Type::Bool => "bool".to_owned(),
        Flow9Type::Str => "string".to_owned(),
        Flow9Type::Flow => "flow".to_owned(),
        Flow9Type::NativeType => "native".to_owned(),
        Flow9Type::Void => "void".to_owned(),
        Flow9Type::Named(name) => name.clone(),
        Flow9Type::TypeVar(name) => name.clone(),
        Flow9Type::Array(inner) => {
            let mut out = "[".to_owned();
            let rest = flow9_type_to_string(inner);
            out.append(rest.as_str());
            out.append("]");
            out
        },
        Flow9Type::Ref(inner) => {
            let mut out = "ref ".to_owned();
            let rest = flow9_type_to_string(inner);
            out.append(rest.as_str());
            out
        },
        Flow9Type::FnType(params, ret) => {
            let mut out = "(".to_owned();
            let list = flow9_types_to_string(params);
            out.append(list.as_str());
            out.append(") -> ");
            let rest = flow9_type_to_string(ret);
            out.append(rest.as_str());
            out
        },
        Flow9Type::Parameterized(name, args) => {
            let mut out = name.clone();
            out.append("<");
            let list = flow9_types_to_string(args);
            out.append(list.as_str());
            out.append(">");
            out
        },
    }
}

fn flow9_types_to_string(ts: &Vec<Flow9Type>) -> (r: String)
    ensures
        r@ == text::join(flow9_texts(ts.deep_view()), ", "@),
    decreases ts,
{
    let mut parts: Vec<String> = Vec::new();
    let mut i: usize = 0;
    while i < ts.len()
        invariant
            i <= ts@.len(),
            parts@.len() == i,
            forall|j: int|
                0 <= j < i ==> (#[trigger] parts@[j])@ == flow9_text(ts@[j].deep_view()),
        decreases ts@.len() - i,
    {
        parts.push(flow9_type_to_string(&ts[i]));
        i += 1;
    }
    assert(parts.deep_view() =~= flow9_texts(ts.deep_view()));
    text::join_strings(parts.as_slice(), ", ")
}

// ─── Signatures ───────────────────────────────────────────────────────────────

/// The signature of a function, from the texts of its parameters and its return type.
pub open spec fn signature(params: Seq<Seq<char>>, ret: Option<Seq<char>>) -> Seq<char> {
    match ret {
        Some(t) => "("@ + text::join(params, ", "@) + ") -> "@ + t,
        None => "("@ + text::join(params, ", "@) + ")"@,
    }
}

fn make_signature(params: &Vec<String>, ret: Option<String>) -> (r: String)
    ensures
        r@ == signature(params.deep_view(), ret.deep_view()),
{
    let mut out = "(".to_owned();
    out.append(text::join_strings(params.as_slice(), ", ").as_str());
    match ret {
        Some(t) => {
            out.append(") -> ");
            out.append(t.as_str());
        },
        None => {
            out.append(")");
        },
    }
    out
}

fn typed(name: &str, t: &Flow9Type) -> (r: String)
    ensures
        r@ == name@ + " : "@ + flow9_text(t.deep_view()),
{
    let mut out = name.to_owned();
    out.append(" : ");
    out.append(flow9_type_to_string(t).as_str());
    out
}

pub open spec fn arg_type_text(a: ArgTypeModel) -> Seq<char> {
    match a.name {
        Some(n) => n + " : "@ + flow9_text(a.type_),
        None => flow9_text(a.type_),
    }
}

pub open spec fn fun_arg_text(a: FunArgModel) -> Seq<char> {
    match a.type_annotation {
        Some(t) => a.name + " : "@ + flow9_text(t),
        None => a.name,
    }
}

pub open spec fn arg_type_texts(args: Seq<ArgTypeModel>) -> Seq<Seq<char>> {
    args.map_values(|a: ArgTypeModel| arg_type_text(a))
}

pub open spec fn fun_arg_texts(args: Seq<FunArgModel>) -> Seq<Seq<char>> {
    args.map_values(|a: FunArgModel| fun_arg_text(a))
}

fn build_sig_from_argtypes(arg_types: &Vec<ArgType>, return_type: &Flow9Type) -> (r: String)
    ensures
        r@ == signature(
            arg_type_texts(arg_types.deep_view()),
            Some(flow9_text(return_type.deep_view())),
        ),
{
    let mut params: Vec<String> = Vec::new();
    let mut i: usize = 0;
    while i < arg_types.len()
        invariant
            i <= arg_types@.len(),
            params@.len() == i,
            forall|j: int|
                0 <= j < i ==> (#[trigger] params@[j])@ == arg_type_text(arg_types@[j].deep_view()),
        decreases arg_types@.len() - i,
    {
        let a = &arg_types[i];
        params.push(
            match &a.name {
                Some(n) => typed(n.as_str(), &a.type_),
                None => flow9_type_to_string(&a.type_),
            },
        );
        i += 1;
    }
    assert(params.deep_view() =~= arg_type_texts(arg_types.deep_view()));
    make_signature(&params, Some(flow9_type_to_string(return_type)))
}

/// The text of an optional return type.
pub open spec fn optional_text(t: Option<Flow9TypeModel>) -> Option<Seq<char>> {
    match t {
        Some(t) => Some(flow9_text(t)),
        None => None,
    }
}

fn build_sig_from_funargs(args: &Vec<FunArg>, return_type: &Option<Flow9Type>) -> (r: String)
    ensures
        r@ == signature(fun_arg_texts(args.deep_view()), optional_text(return_type.deep_view())),
{
    let mut params: Vec<String> = Vec::new();
    let mut i: usize = 0;
    while i < args.len()
        invariant
            i <= args@.len(),
            params@.len() == i,
            forall|j: int|
                0 <= j < i ==> (#[trigger] params@[j])@ == fun_arg_text(args@[j].deep_view()),
        decreases args@.len() - i,
    {
        let a = &args[i];
        params.push(
            match &a.type_annotation {
                Some(t) => typed(a.name.as_str(), t),
                None => a.name.clone(),
            },
        );
        i += 1;
    }
    assert(params.deep_view() =~= fun_arg_texts(args.deep_view()));
    let ret = match return_type {
        Some(t) => Some(flow9_type_to_string(t)),
        None => None,
    };
    make_signature(&params, ret)
}

/// The type of an argument or field, which is open where none was written.
pub open spec fn annotated(t: Option<Flow9TypeModel>) -> TypeReprModel {
    match t {
        Some(t) => type_repr_of(t),
        None => TypeReprModel::Infer,
    }
}

fn make_annotated(t: &Option<Flow9Type>) -> (r: TypeRepr)
    ensures
        r.deep_view() == annotated(t.deep_view()),
{
    match t {
        Some(t) => flow9_type_to_type_repr(t),
        None => TypeRepr::Infer,
    }
}

/// A function of which the generics are not known.
pub open spec fn function_info(
    name: Seq<char>,
    params: Seq<ParamInfoModel>,
    return_type: Option<TypeReprModel>,
) -> FunctionInfoModel {
    FunctionInfoModel { name, params, return_type, generics: Seq::empty() }
}

pub(crate) fn make_function_info(name: &str, params: Vec<ParamInfo>, return_type: Option<TypeRepr>) -> (r:
    FunctionInfo)
    ensures
        r.deep_view() == function_info(name@, params.deep_view(), return_type.deep_view()),
{
    let r = FunctionInfo { name: name.to_owned(), params, return_type, generics: Vec::new() };
    assert(r.generics.deep_view() =~= Seq::empty());
    r
}

/// The parameter of a function, with its name if it has one.
pub open spec fn param(name: Option<Seq<char>>, type_repr: TypeReprModel) -> ParamInfoModel {
    ParamInfoModel { name, type_repr, is_receiver: false }
}

pub open spec fn fun_arg_params(args: Seq<FunArgModel>) -> Seq<ParamInfoModel> {
    args.map_values(|a: FunArgModel| param(Some(a.name), annotated(a.type_annotation)))
}

pub open spec fn arg_type_params(args: Seq<ArgTypeModel>) -> Seq<ParamInfoModel> {
    args.map_values(|a: ArgTypeModel| param(a.name, type_repr_of(a.type_)))
}

pub open spec fn unnamed_params(ts: Seq<Flow9TypeModel>) -> Seq<ParamInfoModel> {
    ts.map_values(|t: Flow9TypeModel| param(None, type_repr_of(t)))
}

/// The language-neutral form of an optional return type.
pub open spec fn optional_type(t: Option<Flow9TypeModel>) -> Option<TypeReprModel> {
    match t {
        Some(t) => Some(type_repr_of(t)),
        None => None,
    }
}

fn build_fi_from_funargs(name: &str, args: &Vec<FunArg>, return_type: &Option<Flow9Type>) -> (r:
    FunctionInfo)
    ensures
        r.deep_view() == function_info(
            name@,
            fun_arg_params(args.deep_view()),
            optional_type(return_type.deep_view()),
        ),
{
    let mut params: Vec<ParamInfo> = Vec::new();
    let ghost all = fun_arg_params(args.deep_view());
    let mut i: usize = 0;
    while i < args.len()
        invariant
            i <= args@.len(),
            params@.len() == i,
            all == fun_arg_params(args.deep_view()),
            forall|j: int| 0 <= j < i ==> (#[trigger] params@[j]).deep_view() == all[j],
        decreases args@.len() - i,
    {
        assert(args.deep_view()[i as int] == args@[i as int].deep_view());
        params.push(
            ParamInfo {
                name: Some(args[i].name.clone()),
                type_repr: make_annotated(&args[i].type_annotation),
                is_receiver: false,
            },
        );
        i += 1;
    }
    assert(params.deep_view() =~= all);
    let ret = match return_type {
        Some(t) => Some(flow9_type_to_type_repr(t)),
        None => None,
    };
    make_function_info(name, params, ret)
}

fn build_fi_from_argtypes(name: &str, arg_types: &Vec<ArgType>, return_type: &Flow9Type) -> (r:
    FunctionInfo)
    ensures
        r.deep_view() == function_info(
            name@,
            arg_type_params(arg_types.deep_view()),
            Some(type_repr_of(return_type.deep_view())),
        ),
{
    let mut params: Vec<ParamInfo> = Vec::new();
    let ghost all = arg_type_params(arg_types.deep_view());
    let mut i: usize = 0;
    while i < arg_types.len()
        invariant
            i <= arg_types@.len(),
            params@.len() == i,
            all == arg_type_params(arg_types.deep_view()),
            forall|j: int| 0 <= j < i ==> (#[trigger] params@[j]).deep_view() == all[j],
        decreases arg_types@.len() - i,
    {
        assert(arg_types.deep_view()[i as int] == arg_types@[i as int].deep_view());
        params.push(
            ParamInfo {
                name: arg_types[i].name.duplicate(),
                type_repr: flow9_type_to_type_repr(&arg_types[i].type_),
                is_receiver: false,
            },
        );
        i += 1;
    }
    assert(params.deep_view() =~= all);
    make_function_info(name, params, Some(flow9_type_to_type_repr(return_type)))
}

fn build_unnamed_params(ts: &Vec<Flow9Type>) -> (r: Vec<ParamInfo>)
    ensures
        r.deep_view() == unnamed_params(ts.deep_view()),
{
    let mut params: Vec<ParamInfo> = Vec::new();
    let ghost all = unnamed_params(ts.deep_view());
    let mut i: usize = 0;
    while i < ts.len()
        invariant
            i <= ts@.len(),
            params@.len() == i,
            all == unnamed_params(ts.deep_view()),
            forall|j: int| 0 <= j < i ==> (#[trigger] params@[j]).deep_view() == all[j],
        decreases ts@.len() - i,
    {
        assert(ts.deep_view()[i as int] == ts@[i as int].deep_view());
        params.push(
            ParamInfo {
                name: None,
                type_repr: flow9_type_to_type_repr(&ts[i]),
                is_receiver: false,
            },
        );
        i += 1;
    }
    assert(params.deep_view() =~= all);
    params
}

// ─── Definitions ──────────────────────────────────────────────────────────────

/// A type definition of which only fields and variants are known.
pub open spec fn type_info(
    name: Seq<char>,
    kind: TypeKind,
    fields: Seq<FieldInfoModel>,
    variants: Seq<VariantInfoModel>,
) -> TypeInfoModel {
    TypeInfoModel {
        name,
        kind,
        generics: Seq::empty(),
        fields,
        variants,
        trait_impls: Seq::empty(),
        derives: Seq::empty(),
    }
}

pub open spec fn fields_of(args: Seq<FunArgModel>) -> Seq<FieldInfoModel> {
    args.map_values(
        |a: FunArgModel|
            FieldInfoModel {
                name: a.name,
                type_repr: annotated(a.type_annotation),
                visibility: Visibility::Public,
            },
    )
}

pub open spec fn variants_of(names: Seq<TypeNameModel>) -> Seq<VariantInfoModel> {
    names.map_values(|n: TypeNameModel| VariantInfoModel { name: n.name, fields: Seq::empty() })
}

fn make_type_info(
    name: &str,
    kind: TypeKind,
    fields: Vec<FieldInfo>,
    variants: Vec<VariantInfo>,
) -> (r: TypeInfo)
    ensures
        r.deep_view() == type_info(name@, kind, fields.deep_view(), variants.deep_view()),
{
    let r = TypeInfo {
        name: name.to_owned(),
        kind,
        generics: Vec::new(),
        fields,
        variants,
        trait_impls: Vec::new(),
        derives: Vec::new(),
    };
    assert(r.generics.deep_view() =~= Seq::empty());
    assert(r.trait_impls.deep_view() =~= Seq::empty());
    assert(r.derives.deep_view() =~= Seq::empty());
    r
}

fn make_fields(args: &Vec<FunArg>) -> (r: Vec<FieldInfo>)
    ensures
        r.deep_view() == fields_of(args.deep_view()),
{
    let mut fields: Vec<FieldInfo> = Vec::new();
    let ghost all = fields_of(args.deep_view());
    let mut i: usize = 0;
    while i < args.len()
        invariant
            i <= args@.len(),
            fields@.len() == i,
            all == fields_of(args.deep_view()),
            forall|j: int| 0 <= j < i ==> (#[trigger] fields@[j]).deep_view() == all[j],
        decreases args@.len() - i,
    {
        assert(args.deep_view()[i as int] == args@[i as int].deep_view());
        fields.push(
            FieldInfo {
                name: args[i].name.clone(),
                type_repr: make_annotated(&args[i].type_annotation),
                visibility: Visibility::Public,
            },
        );
        i += 1;
    }
    assert(fields.deep_view() =~= all);
    fields
}

fn make_variants(names: &Vec<TypeName>) -> (r: Vec<VariantInfo>)
    ensures
        r.deep_view() == variants_of(names.deep_view()),
{
    let mut variants: Vec<VariantInfo> = Vec::new();
    let ghost all = variants_of(names.deep_view());
    let mut i: usize = 0;
    while i < names.len()
        invariant
            i <= names@.len(),
            variants@.len() == i,
            all == variants_of(names.deep_view()),
            forall|j: int| 0 <= j < i ==> (#[trigger] variants@[j]).deep_view() == all[j],
        decreases names@.len() - i,
    {
        assert(names.deep_view()[i as int] == names@[i as int].deep_view());
        let fields: Vec<FieldInfo> = Vec::new();
        assert(fields.deep_view() =~= Seq::empty());
        variants.push(VariantInfo { name: names[i].name.clone(), fields });
        i += 1;
    }
    assert(variants.deep_view() =~= all);
    variants
}

// ─── Modules ──────────────────────────────────────────────────────────────────

/// Whether the first character of a name is uppercase, as in the names of structs.
pub open spec fn is_capitalized(name: Seq<char>) -> bool {
    name.len() > 0 && text::is_uppercase(name[0])
}

fn capitalized(name: &str) -> (b: bool)
    ensures
        b == is_capitalized(name@),
{
    if name.is_empty() {
        false
    } else {
        name.get_char(0).is_uppercase()
    }
}

/// The module with the name among its public functions if it is exported.
pub open spec fn with_public_if(m: ExtractedModuleModel, name: Seq<char>, exported: bool) ->
    ExtractedModuleModel {
    if exported {
        ExtractedModuleModel { public_functions: with_name(m.public_functions, name), ..m }
    } else {
        m
    }
}

/// The module with a struct definition, unless the name is defined already.
pub open spec fn with_struct(
    m: ExtractedModuleModel,
    name: Seq<char>,
    fields: Seq<FunArgModel>,
) -> ExtractedModuleModel {
    if has_key(m.type_definitions, name) {
        m
    } else {
        ExtractedModuleModel {
            type_definitions: with_entry(
                m.type_definitions,
                name,
                type_info(name, TypeKind::Struct, fields_of(fields), Seq::empty()),
            ),
            ..m
        }
    }
}

/// Whether the name is the name of a field or a variant of some type.
pub open spec fn is_member(defs: Seq<(Seq<char>, TypeInfoModel)>, name: Seq<char>) -> bool {
    exists|i: int|
        0 <= i < defs.len() && (has_field_named((#[trigger] defs[i]).1.fields, name)
            || has_variant_named(defs[i].1.variants, name))
}

/// Whether the name is known as a function, a type, or a member of a type.
pub open spec fn is_known(m: ExtractedModuleModel, name: Seq<char>) -> bool {
    ||| has_key(m.function_signatures, name)
    ||| has_key(m.function_info, name)
    ||| has_key(m.type_definitions, name)
    ||| is_member(m.type_definitions, name)
}

/// The names that are keywords where a function's name is expected.
pub open spec fn is_flow9_keyword(name: Seq<char>) -> bool {
    ||| name == "if"@
    ||| name == "switch"@
    ||| name == "export"@
    ||| name == "import"@
    ||| name == "native"@
}

/// What a declared function adds: its signature and parameters, and its name among the
/// public or the private functions.
pub open spec fn with_function_decl(
    m: ExtractedModuleModel,
    name: Seq<char>,
    arg_types: Seq<ArgTypeModel>,
    return_type: Flow9TypeModel,
    exported: bool,
) -> ExtractedModuleModel {
    let described = ExtractedModuleModel {
        function_signatures: with_entry(
            m.function_signatures,
            name,
            signature(arg_type_texts(arg_types), Some(flow9_text(return_type))),
        ),
        function_info: with_entry(
            m.function_info,
            name,
            function_info(name, arg_type_params(arg_types), Some(type_repr_of(return_type))),
        ),
        ..m
    };
    if exported {
        with_public_if(described, name, true)
    } else {
        ExtractedModuleModel { private_functions: with_name(m.private_functions, name), ..described }
    }
}

/// What a defined function adds: its signature and parameters where none are known, and its
/// name among the public or, if it is not there, the private functions.
pub open spec fn with_function(
    m: ExtractedModuleModel,
    name: Seq<char>,
    args: Seq<FunArgModel>,
    return_type: Option<Flow9TypeModel>,
    exported: bool,
) -> ExtractedModuleModel {
    let described = ExtractedModuleModel {
        function_signatures: if has_key(m.function_signatures, name) {
            m.function_signatures
        } else {
            with_entry(
                m.function_signatures,
                name,
                signature(fun_arg_texts(args), optional_text(return_type)),
            )
        },
        function_info: if has_key(m.function_info, name) {
            m.function_info
        } else {
            with_entry(
                m.function_info,
                name,
                function_info(name, fun_arg_params(args), optional_type(return_type)),
            )
        },
        ..m
    };
    if exported {
        with_public_if(described, name, true)
    } else if m.public_functions.contains(name) {
        described
    } else {
        ExtractedModuleModel { private_functions: with_name(m.private_functions, name), ..described }
    }
}

/// What a native function adds.
pub open spec fn with_native(m: ExtractedModuleModel, name: Seq<char>, type_sig: Flow9TypeModel) ->
    ExtractedModuleModel {
    match type_sig {
        Flow9TypeModel::FnType(params, ret) => ExtractedModuleModel {
            function_signatures: with_entry(
                m.function_signatures,
                name,
                signature(flow9_texts(params), Some(flow9_text(*ret))),
            ),
            function_info: with_entry(
                m.function_info,
                name,
                function_info(name, unnamed_params(params), Some(type_repr_of(*ret))),
            ),
            ..m
        },
        other => ExtractedModuleModel {
            function_signatures: with_entry(m.function_signatures, name, flow9_text(other)),
            ..m
        },
    }
}

/// The module with what a declaration adds to it. A name is exported if its declaration is,
/// or if it stands in an export block.
pub open spec fn with_decl(m: ExtractedModuleModel, d: DeclModel, exports: Seq<Seq<char>>) ->
    ExtractedModuleModel {
    match d {
        DeclModel::Import(path) => ExtractedModuleModel {
            imports: with_name(m.imports, path),
            ..m
        },
        DeclModel::Forbid(_) => m,
        DeclModel::Union { name, type_params, variants } => with_public_if(
            ExtractedModuleModel {
                type_definitions: with_entry(
                    m.type_definitions,
                    name,
                    type_info(name, TypeKind::Enum, Seq::empty(), variants_of(variants)),
                ),
                ..m
            },
            name,
            exports.contains(name),
        ),
        DeclModel::StructDecl { name, fields, exported } => if has_key(m.type_definitions, name) {
            m
        } else {
            with_public_if(with_struct(m, name, fields), name, exported || exports.contains(name))
        },
        DeclModel::FunctionDecl { name, arg_types, return_type, exported } => if is_capitalized(
            name,
        ) {
            m
        } else {
            with_function_decl(
                m,
                name,
                arg_types,
                return_type,
                exported || exports.contains(name),
            )
        },
        DeclModel::Function { name, args, return_type, body, exported } => if is_flow9_keyword(
            name,
        ) {
            m
        } else if is_capitalized(name) {
            with_public_if(with_struct(m, name, args), name, exported || exports.contains(name))
        } else {
            with_function(m, name, args, return_type, exported || exports.contains(name))
        },
        DeclModel::Native { name, io, type_sig, binding } => with_public_if(
            with_native(m, name, type_sig),
            name,
            exports.contains(name),
        ),
        DeclModel::Assign { name, body, exported } => if (exported || exports.contains(name))
            && !is_known(m, name) {
            ExtractedModuleModel { state_variables: with_name(m.state_variables, name), ..m }
        } else {
            m
        },
        DeclModel::VarDecl { name, type_annotation, has_init, exported } => if exported
            || exports.contains(name) {
            ExtractedModuleModel { state_variables: with_name(m.state_variables, name), ..m }
        } else {
            m
        },
    }
}

/// The module with what the declarations add to it, one after the other.
pub open spec fn with_decls(m: ExtractedModuleModel, decls: Seq<DeclModel>, exports: Seq<Seq<char>>) ->
    ExtractedModuleModel
    decreases decls.len(),
{
    if decls.len() == 0 {
        m
    } else {
        with_decl(with_decls(m, decls.drop_last(), exports), decls.last(), exports)
    }
}

fn add_struct(module: &mut ExtractedModule, name: &String, fields: &Vec<FunArg>)
    ensures
        final(module).deep_view() == with_struct(
            old(module).deep_view(),
            name@,
            fields.deep_view(),
        ),
        old(module).wf() ==> final(module).wf(),
{
    if !module.type_definitions.contains_key(name.as_str()) {
        let variants: Vec<VariantInfo> = Vec::new();
        assert(variants.deep_view() =~= Seq::empty());
        let ti = make_type_info(name.as_str(), TypeKind::Struct, make_fields(fields), variants);
        module.type_definitions.insert(name.clone(), ti);
    }
}

fn any_member_named(defs: &StringMap<TypeInfo>, name: &String) -> (b: bool)
    ensures
        b == is_member(defs.deep_view(), name@),
{
    let mut i: usize = 0;
    while i < defs.len()
        invariant
            i <= defs.deep_view().len(),
            forall|j: int|
                0 <= j < i ==> !has_field_named((#[trigger] defs.deep_view()[j]).1.fields, name@)
                    && !has_variant_named(defs.deep_view()[j].1.variants, name@),
        decreases defs.deep_view().len() - i,
    {
        let ti = defs.value(i);
        if any_field_named(&ti.fields, name) || any_variant_named(&ti.variants, name) {
            assert(has_field_named(defs.deep_view()[i as int].1.fields, name@)
                || has_variant_named(defs.deep_view()[i as int].1.variants, name@));
            return true;
        }
        i += 1;
    }
    false
}

fn known(module: &ExtractedModule, name: &String) -> (b: bool)
    ensures
        b == is_known(module.deep_view(), name@),
{
    module.function_signatures.contains_key(name.as_str()) || module.function_info.contains_key(
        name.as_str(),
    ) || module.type_definitions.contains_key(name.as_str()) || any_member_named(
        &module.type_definitions,
        name,
    )
}

fn flow9_keyword(name: &str) -> (b: bool)
    ensures
        b == is_flow9_keyword(name@),
{
    text::same(name, "if") || text::same(name, "switch") || text::same(name, "export")
        || text::same(name, "import") || text::same(name, "native")
}

fn add_function_decl(
    module: &mut ExtractedModule,
    name: &String,
    arg_types: &Vec<ArgType>,
    return_type: &Flow9Type,
    exported: bool,
)
    ensures
        final(module).deep_view() == with_function_decl(
            old(module).deep_view(),
            name@,
            arg_types.deep_view(),
            return_type.deep_view(),
            exported,
        ),
        old(module).wf() ==> final(module).wf(),
{
    let sig = build_sig_from_argtypes(arg_types, return_type);
    module.function_signatures.insert(name.clone(), sig);
    let fi = build_fi_from_argtypes(name.as_str(), arg_types, return_type);
    module.function_info.insert(name.clone(), fi);
    if exported {
        add_name(&mut module.public_functions, name);
    } else {
        add_name(&mut module.private_functions, name);
    }
}

fn add_function(
    module: &mut ExtractedModule,
    name: &String,
    args: &Vec<FunArg>,
    return_type: &Option<Flow9Type>,
    exported: bool,
)
    ensures
        final(module).deep_view() == with_function(
            old(module).deep_view(),
            name@,
            args.deep_view(),
            return_type.deep_view(),
            exported,
        ),
        old(module).wf() ==> final(module).wf(),
{
    if !module.function_signatures.contains_key(name.as_str()) {
        let sig = build_sig_from_funargs(args, return_type);
        module.function_signatures.insert(name.clone(), sig);
    }
    if !module.function_info.contains_key(name.as_str()) {
        let fi = build_fi_from_funargs(name.as_str(), args, return_type);
        module.function_info.insert(name.clone(), fi);
    }
    if exported {
        add_name(&mut module.public_functions, name);
    } else if !list_contains(module.public_functions.as_slice(), name) {
        add_name(&mut module.private_functions, name);
    }
}

fn add_native(module: &mut ExtractedModule, name: &String, type_sig: &Flow9Type)
    ensures
        final(module).deep_view() == with_native(
            old(module).deep_view(),
            name@,
            type_sig.deep_view(),
        ),
        old(module).wf() ==> final(module).wf(),
{
    proof {
        flow9_type_model_of_lists(*type_sig);
    }
    match type_sig {
        Flow9Type::FnType(params, ret) => {
            let mut sig = "(".to_owned();
            sig.append(flow9_types_to_string(params).as_str());
            sig.append(") -> ");
            sig.append(flow9_type_to_string(ret).as_str());
            module.function_signatures.insert(name.clone(), sig);
            let fi = make_function_info(
                name.as_str(),
                build_unnamed_params(params),
                Some(flow9_type_to_type_repr(ret)),
            );
            module.function_info.insert(name.clone(), fi);
        },
        _ => {
            let sig = flow9_type_to_string(type_sig);
            module.function_signatures.insert(name.clone(), sig);
        },
    }
}

fn add_decl(module: &mut ExtractedModule, d: &Decl, exports: &Vec<String>)
    ensures
        final(module).deep_view() == with_decl(
            old(module).deep_view(),
            d.deep_view(),
            exports.deep_view(),
        ),
        old(module).wf() ==> final(module).wf(),
{
    match d {
        Decl::Import(path) => {
            add_name(&mut module.imports, path);
        },
        Decl::Forbid(_) => {},
        Decl::Union { name, type_params: _, variants } => {
            let fields: Vec<FieldInfo> = Vec::new();
            assert(fields.deep_view() =~= Seq::empty());
            let ti = make_type_info(name.as_str(), TypeKind::Enum, fields, make_variants(variants));
            module.type_definitions.insert(name.clone(), ti);
            if list_contains(exports.as_slice(), name) {
                add_name(&mut module.public_functions, name);
            }
        },
        Decl::StructDecl { name, fields, exported } => {
            if !module.type_definitions.contains_key(name.as_str()) {
                add_struct(module, name, fields);
                if *exported || list_contains(exports.as_slice(), name) {
                    add_name(&mut module.public_functions, name);
                }
            }
        },
        Decl::FunctionDecl { name, arg_types, return_type, exported } => {
            if !capitalized(name.as_str()) {
                let public = *exported || list_contains(exports.as_slice(), name);
                add_function_decl(module, name, arg_types, return_type, public);
            }
        },
        Decl::Function { name, args, return_type, body: _, exported } => {
            if !flow9_keyword(name.as_str()) {
                let public = *exported || list_contains(exports.as_slice(), name);
                if capitalized(name.as_str()) {
                    add_struct(module, name, args);
                    if public {
                        add_name(&mut module.public_functions, name);
                    }
                } else {
                    add_function(module, name, args, return_type, public);
                }
            }
        },
        Decl::Native { name, io: _, type_sig, binding: _ } => {
            add_native(module, name, type_sig);
            if list_contains(exports.as_slice(), name) {
                add_name(&mut module.public_functions, name);
            }
        },
        Decl::Assign { name, body: _, exported } => {
            if *exported || list_contains(exports.as_slice(), name) {
                if !known(module, name) {
                    add_name(&mut module.state_variables, name);
                }
            }
        },
        Decl::VarDecl { name, type_annotation: _, has_init: _, exported } => {
            if *exported || list_contains(exports.as_slice(), name) {
                add_name(&mut module.state_variables, name);
            }
        },
    }
}

/// What is extracted from a source text, or why it cannot be parsed. Texts of which there is
/// no reading are left out.
pub open spec fn flow9_extraction(stem: Option<Seq<char>>, path: Seq<char>, content: Seq<char>) ->
    Option<Result<ExtractedModuleModel, Seq<char>>> {
    match source_reading(without_comments(content)) {
        Some(Ok(parsed)) => Some(
            Ok(
                with_decls(
                    new_module(stem, path, "flow9"@),
                    parsed.declarations,
                    parsed.exports,
                ),
            ),
        ),
        Some(Err(message)) => Some(Err("Parse error: "@ + message)),
        None => None,
    }
}

/// Extracts a module from a source text, or says that the text has no reading.
pub fn checked_parse_flow9(stem: Option<&str>, path: &str, raw_content: &str) -> (r: Option<
    Result<ExtractedModule, String>,
>)
    ensures
        match r {
            Some(result) => flow9_extraction(stem.deep_view(), path@, raw_content@) == Some(
                result_view(result),
            ) && (result matches Ok(m) ==> m.wf()),
            None => flow9_extraction(stem.deep_view(), path@, raw_content@) is None
                && !text::is_ascii(raw_content@),
        },
{
    proof {
        if text::is_ascii(raw_content@) {
            lemma_comments_ascii(raw_content@);
        }
    }
    let content = strip_comments(raw_content);
    let parsed = match checked_parse_flow9_source(content.as_str()) {
        Some(Ok(parsed)) => parsed,
        Some(Err(e)) => {
            let mut message = "Parse error: ".to_owned();
            message.append(e.as_str());
            return Some(Err(message));
        },
        None => {
            return None;
        },
    };
    let mut module = start_module(stem, path, "flow9");
    let ghost first = module.deep_view();
    let ghost decls = parsed.declarations.deep_view();
    let ghost exports = parsed.exports.deep_view();
    assert(decls.take(0).len() == 0);
    let mut i: usize = 0;
    while i < parsed.declarations.len()
        invariant
            i <= parsed.declarations@.len(),
            decls == parsed.declarations.deep_view(),
            exports == parsed.exports.deep_view(),
            module.deep_view() == with_decls(first, decls.take(i as int), exports),
            module.wf(),
        decreases parsed.declarations@.len() - i,
    {
        proof {
            assert(decls[i as int] == parsed.declarations@[i as int].deep_view());
            assert(decls.take(i + 1).drop_last() =~= decls.take(i as int));
            assert(decls.take(i + 1).last() == decls[i as int]);
        }
        add_decl(&mut module, &parsed.declarations[i], &parsed.exports);
        i += 1;
    }
    assert(decls.take(decls.len() as int) =~= decls);
    Some(Ok(module))
}

/// Extracts a module from a source text. Every text of ASCII characters has a reading.
pub fn parse_flow9(stem: Option<&str>, path: &str, raw_content: &str) -> (r: Result<
    ExtractedModule,
    String,
>)
    requires
        text::is_ascii(raw_content@) || flow9_extraction(stem.deep_view(), path@, raw_content@)
            is Some,
    ensures
        flow9_extraction(stem.deep_view(), path@, raw_content@) == Some(result_view(r)),
        r matches Ok(m) ==> m.wf(),
{
    match checked_parse_flow9(stem, path, raw_content) {
        Some(r) => r,
        None => Err(String::new()),
    }
}

// ─── Comments ─────────────────────────────────────────────────────────────────

/// Behind which character the string literal ends that goes on at `i`. A backslash escapes
/// the character behind it.
pub open spec fn literal_end(s: Seq<char>, i: int) -> int
    decreases s.len() - i,
{
    if i < 0 || i >= s.len() {
        i
    } else if s[i] == '\\' {
        if i + 1 >= s.len() {
            i + 1
        } else {
            literal_end(s, i + 2)
        }
    } else if s[i] == '"' {
        i + 1
    } else {
        literal_end(s, i + 1)
    }
}

pub proof fn lemma_literal_end(s: Seq<char>, i: int)
    ensures
        i <= literal_end(s, i),
        0 <= i <= s.len() ==> literal_end(s, i) <= s.len(),
    decreases s.len() - i,
{
    if 0 <= i < s.len() {
        if s[i] == '\\' {
            if i + 1 < s.len() {
                lemma_literal_end(s, i + 2);
            }
        } else {
            lemma_literal_end(s, i + 1);
        }
    }
}

/// What is left of the text from `i` on, behind what is done: string literals stay as they
/// are, line comments leave their line feed, block comments leave nothing.
pub open spec fn stripped_from(s: Seq<char>, i: int, done: Seq<char>) -> Seq<char>
    decreases s.len() - i,
{
    if i < 0 || i >= s.len() {
        done
    } else if s[i] == '"' {
        let e = literal_end(s, i + 1);
        proof {
            lemma_literal_end(s, i + 1);
        }
        stripped_from(s, e, done + s.subrange(i, e))
    } else if s[i] == '/' && i + 1 < s.len() && s[i + 1] == '/' {
        match text::find_char_from(s, '\n', i + 1) {
            Some(k) => {
                proof {
                    text::lemma_find_char_from(s, '\n', i + 1);
                }
                stripped_from(s, k + 1, done.push('\n'))
            },
            None => done,
        }
    } else if s[i] == '/' && i + 1 < s.len() && s[i + 1] == '*' {
        match text::find_from(s, "*/"@, i + 2) {
            Some(k) => {
                proof {
                    reveal_strlit("*/");
                    text::lemma_find_from(s, "*/"@, i + 2);
                }
                stripped_from(s, k + 2, done)
            },
            None => done,
        }
    } else {
        stripped_from(s, i + 1, done.push(s[i]))
    }
}

/// The text without its comments.
pub open spec fn without_comments(s: Seq<char>) -> Seq<char> {
    stripped_from(s, 0, Seq::empty())
}

/// A text of ASCII characters without its comments is such a text.
pub proof fn lemma_comments_ascii(s: Seq<char>)
    requires
        text::is_ascii(s),
    ensures
        text::is_ascii(without_comments(s)),
{
    lemma_stripped_ascii(s, 0, Seq::empty());
}

proof fn lemma_stripped_ascii(s: Seq<char>, i: int, done: Seq<char>)
    requires
        text::is_ascii(s),
        text::is_ascii(done),
    ensures
        text::is_ascii(stripped_from(s, i, done)),
    decreases s.len() - i,
{
    if 0 <= i < s.len() {
        if s[i] == '"' {
            let e = literal_end(s, i + 1);
            lemma_literal_end(s, i + 1);
            assert(text::is_ascii(done + s.subrange(i, e)));
            lemma_stripped_ascii(s, e, done + s.subrange(i, e));
        } else if s[i] == '/' && i + 1 < s.len() && s[i + 1] == '/' {
            match text::find_char_from(s, '\n', i + 1) {
                Some(k) => {
                    text::lemma_find_char_from(s, '\n', i + 1);
                    assert(text::is_ascii(done.push('\n')));
                    lemma_stripped_ascii(s, k + 1, done.push('\n'));
                },
                None => {},
            }
        } else if s[i] == '/' && i + 1 < s.len() && s[i + 1] == '*' {
            match text::find_from(s, "*/"@, i + 2) {
                Some(k) => {
                    reveal_strlit("*/");
                    text::lemma_find_from(s, "*/"@, i + 2);
                    lemma_stripped_ascii(s, k + 2, done);
                },
                None => {},
            }
        } else {
            assert(text::is_ascii(done.push(s[i])));
            lemma_stripped_ascii(s, i + 1, done.push(s[i]));
        }
    }
}

fn skip_literal(s: &[char], from: usize) -> (r: usize)
    requires
        from <= s@.len(),
    ensures
        r == literal_end(s@, from as int),
        from <= r <= s@.len(),
{
    let mut i: usize = from;
    while i < s.len()
        invariant
            from <= i <= s@.len(),
            literal_end(s@, from as int) == literal_end(s@, i as int),
        decreases s@.len() - i,
    {
        if s[i] == '\\' {
            if i + 1 >= s.len() {
                return i + 1;
            }
            i += 2;
        } else if s[i] == '"' {
            return i + 1;
        } else {
            i += 1;
        }
    }
    i
}

/// Strips line comments and block comments.
pub fn strip_comments(content: &str) -> (r: String)
    ensures
        r@ == without_comments(content@),
{
    let chars = text::chars_of(content);
    let s = chars.as_slice();
    let close = text::chars_of("*/");
    proof {
        reveal_strlit("*/");
    }
    let mut out: String = String::new();
    let mut i: usize = 0;
    while i < s.len()
        invariant
            i <= s@.len(),
            s@ == content@,
            close@ == "*/"@,
            close@.len() == 2,
            without_comments(content@) == stripped_from(s@, i as int, out@),
        decreases s@.len() - i,
    {
        let c = s[i];
        if c == '"' {
            let e = skip_literal(s, i + 1);
            out.append(text::piece(s, i, e).as_str());
            i = e;
        } else if c == '/' && i + 1 < s.len() && s[i + 1] == '/' {
            match text::find_char(s, '\n', i + 1) {
                Some(k) => {
                    out.push('\n');
                    i = k + 1;
                },
                None => {
                    return out;
                },
            }
        } else if c == '/' && i + 1 < s.len() && s[i + 1] == '*' {
            match text::find_chars_from(s, close.as_slice(), i + 2) {
                Some(k) => {
                    i = k + 2;
                },
                None => {
                    return out;
                },
            }
        } else {
            out.push(c);
            i += 1;
        }
    }
    out
}

// ─── The extractor ────────────────────────────────────────────────────────────

/// Extracts from Flow9 sources.
#[derive(Debug, Clone, Copy)]
pub struct Flow9Extractor;

impl Flow9Extractor {
    pub fn new() -> (r: Self)
        ensures
            r == Flow9Extractor,
    {
        Flow9Extractor
    }
}

// ─── Laws ─────────────────────────────────────────────────────────────────────

/// Whether no list of a module holds a name twice.
pub open spec fn lists_are_distinct(m: ExtractedModuleModel) -> bool {
    &&& m.imports.no_duplicates()
    &&& m.public_functions.no_duplicates()
    &&& m.private_functions.no_duplicates()
    &&& m.state_variables.no_duplicates()
}

/// Whether what a module shows to others is exported, and what it keeps private is not.
pub open spec fn keeps_to_exports(m: ExtractedModuleModel, exports: Seq<Seq<char>>) -> bool {
    &&& forall|x: Seq<char>| #[trigger] m.public_functions.contains(x) ==> exports.contains(x)
    &&& forall|x: Seq<char>| #[trigger] m.private_functions.contains(x) ==> !exports.contains(x)
    &&& forall|x: Seq<char>| #[trigger] m.state_variables.contains(x) ==> exports.contains(x)
}

proof fn lemma_with_decl(m: ExtractedModuleModel, d: DeclModel, exports: Seq<Seq<char>>)
    requires
        lists_are_distinct(m),
        keeps_to_exports(m, exports),
        is_exported(d) ==> exports.contains(declared_name(d)->Some_0),
    ensures
        lists_are_distinct(with_decl(m, d, exports)),
        keeps_to_exports(with_decl(m, d, exports), exports),
{
    match d {
        DeclModel::Import(path) => {},
        _ => {
            if let Some(name) = declared_name(d) {
                lemma_with_name(m.public_functions, name);
                lemma_with_name(m.private_functions, name);
                lemma_with_name(m.state_variables, name);
            }
        },
    }
}

proof fn lemma_with_decls(m: ExtractedModuleModel, decls: Seq<DeclModel>, exports: Seq<Seq<char>>)
    requires
        lists_are_distinct(m),
        keeps_to_exports(m, exports),
        forall|k: int|
            0 <= k < decls.len() && is_exported(#[trigger] decls[k]) ==> exports.contains(
                declared_name(decls[k])->Some_0,
            ),
    ensures
        lists_are_distinct(with_decls(m, decls, exports)),
        keeps_to_exports(with_decls(m, decls, exports), exports),
    decreases decls.len(),
{
    if decls.len() > 0 {
        let front = decls.drop_last();
        assert forall|k: int|
            0 <= k < front.len() && is_exported(#[trigger] front[k]) implies exports.contains(
            declared_name(front[k])->Some_0,
        ) by {
            assert(front[k] == decls[k]);
        }
        lemma_with_decls(m, front, exports);
        assert(decls.last() == decls[decls.len() - 1]);
        lemma_with_decl(with_decls(m, front, exports), decls.last(), exports);
    }
}

/// In every module that is extracted, no list holds a name twice, no function is both public
/// and private, and every public function and state variable is declared in an export block.
pub proof fn extracted_names_are_sound(
    stem: Option<Seq<char>>,
    path: Seq<char>,
    content: Seq<char>,
    m: ExtractedModuleModel,
)
    requires
        flow9_extraction(stem, path, content) == Some(Ok::<ExtractedModuleModel, Seq<char>>(m)),
    ensures
        lists_are_distinct(m),
        forall|x: Seq<char>|
            #[trigger] m.public_functions.contains(x) ==> !m.private_functions.contains(x),
        forall|x: Seq<char>|
            #[trigger] m.public_functions.contains(x) ==> declared_in_block(
                without_comments(content),
                x,
            ),
        forall|x: Seq<char>|
            #[trigger] m.state_variables.contains(x) ==> declared_in_block(
                without_comments(content),
                x,
            ),
{
    let s = without_comments(content);
    exports_are_declared_in_blocks(s);
    if let Some(Ok(parsed)) = source_reading(s) {
        assert(exports_are_sound(s, parsed));
        lemma_with_decls(
            new_module(stem, path, "flow9"@),
            parsed.declarations,
            parsed.exports,
        );
        assert forall|x: Seq<char>| parsed.exports.contains(x) implies declared_in_block(
            s,
            x,
        ) by {
            let k = choose|k: int| 0 <= k < parsed.exports.len() && parsed.exports[k] == x;
            assert(parsed.exports[k] == x);
        }
    }
}

} // verus!

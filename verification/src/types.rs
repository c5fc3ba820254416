//! Language-neutral descriptions of types and functions, as read from source code.
use vstd::prelude::*;

use crate::data::{Duplicate, Same};
use crate::text;

verus! {

/// A type expression as written in source code. Two expressions are the same type only if
/// they are written alike: `Vec<String>` is not `std::vec::Vec<std::string::String>`.
#[derive(Debug, PartialEq, Eq)]
pub enum TypeRepr {
    /// A simple named type: `u32`, `String`, `Self`
    Named(String),
    /// A parameterized type: `Vec<String>`, `Result<T, E>`
    Applied(Box<TypeRepr>, Vec<TypeRepr>),
    /// A tuple type: `(A, B, C)`
    Tuple(Vec<TypeRepr>),
    /// A reference: `&T` or `&mut T`
    Reference { mutable: bool, inner: Box<TypeRepr> },
    /// A slice: `[T]`
    Slice(Box<TypeRepr>),
    /// An array: `[T; N]`
    Array(Box<TypeRepr>, usize),
    /// A function pointer: `fn(A, B) -> C`
    FnPointer { params: Vec<TypeRepr>, ret: Box<TypeRepr> },
    /// The unit type: `()`
    Unit,
    /// An inferred type: `_`
    Infer,
}

/// What a [`TypeRepr`] holds.
#[verifier::ext_equal]
pub enum TypeReprModel {
    Named(Seq<char>),
    Applied(Box<TypeReprModel>, Seq<TypeReprModel>),
    Tuple(Seq<TypeReprModel>),
    Reference { mutable: bool, inner: Box<TypeReprModel> },
    Slice(Box<TypeReprModel>),
    Array(Box<TypeReprModel>, usize),
    FnPointer { params: Seq<TypeReprModel>, ret: Box<TypeReprModel> },
    Unit,
    Infer,
}

pub open spec fn type_model(t: TypeRepr) -> TypeReprModel
    decreases t,
{
    match t {
        TypeRepr::Named(name) => TypeReprModel::Named(name@),
        TypeRepr::Applied(base, args) => TypeReprModel::Applied(
            Box::new(type_model(*base)),
            type_models(args),
        ),
        TypeRepr::Tuple(elems) => TypeReprModel::Tuple(
            type_models(elems),
        ),
        TypeRepr::Reference { mutable, inner } => TypeReprModel::Reference {
            mutable,
            inner: Box::new(type_model(*inner)),
        },
        TypeRepr::Slice(inner) => TypeReprModel::Slice(Box::new(type_model(*inner))),
        TypeRepr::Array(inner, size) => TypeReprModel::Array(Box::new(type_model(*inner)), size),
        TypeRepr::FnPointer { params, ret } => TypeReprModel::FnPointer {
            params: type_models(params),
            ret: Box::new(type_model(*ret)),
        },
        TypeRepr::Unit => TypeReprModel::Unit,
        TypeRepr::Infer => TypeReprModel::Infer,
    }
}

pub open spec fn type_models(ts: Vec<TypeRepr>) -> Seq<TypeReprModel>
    decreases ts,
{
    Seq::new(
        ts@.len(),
        |i: int|
            if 0 <= i < ts@.len() {
                type_model(ts@[i])
            } else {
                TypeReprModel::Unit
            },
    )
}

impl DeepView for TypeRepr {
    type V = TypeReprModel;

    open spec fn deep_view(&self) -> TypeReprModel {
        type_model(*self)
    }
}

/// The model of a type, with the models of its lists.
pub proof fn type_model_of_lists(t: TypeRepr)
    ensures
        type_model(t) == match t {
            TypeRepr::Applied(base, args) => TypeReprModel::Applied(
                Box::new(type_model(*base)),
                args.deep_view(),
            ),
            TypeRepr::Tuple(elems) => TypeReprModel::Tuple(elems.deep_view()),
            TypeRepr::FnPointer { params, ret } => TypeReprModel::FnPointer {
                params: params.deep_view(),
                ret: Box::new(type_model(*ret)),
            },
            _ => type_model(t),
        },
{
    reveal_with_fuel(type_model, 2);
    reveal_with_fuel(type_models, 2);
    match t {
        TypeRepr::Applied(_, args) => {
            assert(type_models(args) =~= args.deep_view());
        },
        TypeRepr::Tuple(elems) => {
            assert(type_models(elems) =~= elems.deep_view());
        },
        TypeRepr::FnPointer { params, ret } => {
            assert(type_models(params) =~= params.deep_view());
        },
        _ => {},
    }
}

fn copy_type(t: &TypeRepr) -> (r: TypeRepr)
    ensures
        r.deep_view() == t.deep_view(),
    decreases t,
{
    let r = match t {
        TypeRepr::Named(name) => TypeRepr::Named(name.clone()),
        TypeRepr::Applied(base, args) => TypeRepr::Applied(
            Box::new(copy_type(base)),
            copy_types(args),
        ),
        TypeRepr::Tuple(elems) => TypeRepr::Tuple(copy_types(elems)),
        TypeRepr::Reference { mutable, inner } => TypeRepr::Reference {
            mutable: *mutable,
            inner: Box::new(copy_type(inner)),
        },
        TypeRepr::Slice(inner) => TypeRepr::Slice(Box::new(copy_type(inner))),
        TypeRepr::Array(inner, size) => TypeRepr::Array(Box::new(copy_type(inner)), *size),
        TypeRepr::FnPointer { params, ret } => TypeRepr::FnPointer {
            params: copy_types(params),
            ret: Box::new(copy_type(ret)),
        },
        TypeRepr::Unit => TypeRepr::Unit,
        TypeRepr::Infer => TypeRepr::Infer,
    };
    proof {
        type_model_of_lists(*t);
        type_model_of_lists(r);
    }
    r
}

fn copy_types(ts: &Vec<TypeRepr>) -> (r: Vec<TypeRepr>)
    ensures
        r.deep_view() == ts.deep_view(),
    decreases ts,
{
    let mut out: Vec<TypeRepr> = Vec::new();
    let mut i: usize = 0;
    while i < ts.len()
        invariant
            i <= ts@.len(),
            out@.len() == i,
            forall|j: int| 0 <= j < i ==> (#[trigger] out@[j]).deep_view() == ts@[j].deep_view(),
        decreases ts@.len() - i,
    {
        out.push(copy_type(&ts[i]));
        i += 1;
    }
    assert(out.deep_view() =~= ts.deep_view());
    out
}

impl Clone for TypeRepr {
    fn clone(&self) -> (r: Self)
        ensures
            r.deep_view() == self.deep_view(),
    {
        self.duplicate()
    }
}

impl Duplicate for TypeRepr {
    fn duplicate(&self) -> (r: Self) {
        copy_type(self)
    }
}

fn same_type(a: &TypeRepr, b: &TypeRepr) -> (r: bool)
    ensures
        r == (a.deep_view() == b.deep_view()),
    decreases a,
{
    proof {
        type_model_of_lists(*a);
        type_model_of_lists(*b);
    }
    match (a, b) {
        (TypeRepr::Named(x), TypeRepr::Named(y)) => *x == *y,
        (TypeRepr::Applied(x, xs), TypeRepr::Applied(y, ys)) => {
            let heads = same_type(x, y);
            let tails = same_types(xs, ys);
            heads && tails
        },
        (TypeRepr::Tuple(xs), TypeRepr::Tuple(ys)) => same_types(xs, ys),
        (
            TypeRepr::Reference { mutable: m, inner: x },
            TypeRepr::Reference { mutable: n, inner: y },
        ) => {
            let inner = same_type(x, y);
            *m == *n && inner
        },
        (TypeRepr::Slice(x), TypeRepr::Slice(y)) => same_type(x, y),
        (TypeRepr::Array(x, m), TypeRepr::Array(y, n)) => {
            let inner = same_type(x, y);
            *m == *n && inner
        },
        (
            TypeRepr::FnPointer { params: xs, ret: x },
            TypeRepr::FnPointer { params: ys, ret: y },
        ) => {
            let params = same_types(xs, ys);
            let ret = same_type(x, y);
            params && ret
        },
        (TypeRepr::Unit, TypeRepr::Unit) => true,
        (TypeRepr::Infer, TypeRepr::Infer) => true,
        _ => false,
    }
}

fn same_types(xs: &Vec<TypeRepr>, ys: &Vec<TypeRepr>) -> (r: bool)
    ensures
        r == (xs.deep_view() == ys.deep_view()),
    decreases xs,
{
    if xs.len() != ys.len() {
        assert(xs.deep_view().len() != ys.deep_view().len());
        return false;
    }
    let mut i: usize = 0;
    while i < xs.len()
        invariant
            i <= xs@.len() == ys@.len(),
            forall|j: int| 0 <= j < i ==> (#[trigger] xs@[j]).deep_view() == ys@[j].deep_view(),
        decreases xs@.len() - i,
    {
        if !same_type(&xs[i], &ys[i]) {
            assert(xs.deep_view()[i as int] != ys.deep_view()[i as int]);
            return false;
        }
        i += 1;
    }
    assert(xs.deep_view() =~= ys.deep_view());
    true
}

impl Same for TypeRepr {
    fn same(&self, other: &Self) -> (r: bool) {
        same_type(self, other)
    }
}

/// How a type is written.
pub open spec fn type_text(t: TypeReprModel) -> Seq<char>
    decreases t,
{
    match t {
        TypeReprModel::Named(name) => name,
        TypeReprModel::Applied(base, args) => type_text(*base) + "<"@ + text::join(type_texts(args), ", "@) + ">"@,
        TypeReprModel::Tuple(elems) => "("@ + text::join(type_texts(elems), ", "@) + ")"@,
        TypeReprModel::Reference { mutable, inner } => if mutable {
            "&mut "@ + type_text(*inner)
        } else {
            "&"@ + type_text(*inner)
        },
        TypeReprModel::Slice(inner) => "["@ + type_text(*inner) + "]"@,
        TypeReprModel::Array(inner, size) => "["@ + type_text(*inner) + "; "@ + text::decimal(
            size as nat,
        ) + "]"@,
        TypeReprModel::FnPointer { params, ret } => "fn("@ + text::join(type_texts(params), ", "@) + ") -> "@ + type_text(*ret),
        TypeReprModel::Unit => "()"@,
        TypeReprModel::Infer => "_"@,
    }
}

/// How the types of a list are written.
pub open spec fn type_texts(ts: Seq<TypeReprModel>) -> Seq<Seq<char>>
    decreases ts,
{
    Seq::new(
        ts.len(),
        |i: int|
            if 0 <= i < ts.len() {
                type_text(ts[i])
            } else {
                Seq::empty()
            },
    )
}

/// How a type is written, in terms of how its lists are.
pub proof fn type_text_of_lists(t: TypeReprModel)
    ensures
        type_text(t) == match t {
            TypeReprModel::Applied(base, args) => type_text(*base) + "<"@ + text::join(
                type_texts(args),
                ", "@,
            ) + ">"@,
            TypeReprModel::Tuple(elems) => "("@ + text::join(type_texts(elems), ", "@) + ")"@,
            TypeReprModel::FnPointer { params, ret } => "fn("@ + text::join(
                type_texts(params),
                ", "@,
            ) + ") -> "@ + type_text(*ret),
            _ => type_text(t),
        },
{
    reveal_with_fuel(type_text, 2);
    reveal_with_fuel(type_texts, 2);
}

fn write_type(t: &TypeRepr) -> (r: String)
    ensures
        r@ == type_text(t.deep_view()),
    decreases t,
{
    proof {
        type_model_of_lists(*t);
        type_text_of_lists(t.deep_view());
    }
    match t {
        TypeRepr::Named(name) => name.clone(),
        TypeRepr::Applied(base, args) => {
            let mut out = write_type(base);
            out.append("<");
            let list = write_types(args);
            out.append(list.as_str());
            out.append(">");
            out
        },
        TypeRepr::Tuple(elems) => {
            let mut out = "(".to_owned();
            let list = write_types(elems);
            out.append(list.as_str());
            out.append(")");
            out
        },
        TypeRepr::Reference { mutable, inner } => {
            let mut out = if *mutable {
                "&mut ".to_owned()
            } else {
                "&".to_owned()
            };
            let rest = write_type(inner);
            out.append(rest.as_str());
            out
        },
        TypeRepr::Slice(inner) => {
            let mut out = "[".to_owned();
            let rest = write_type(inner);
            out.append(rest.as_str());
            out.append("]");
            out
        },
        TypeRepr::Array(inner, size) => {
            let mut out = "[".to_owned();
            let rest = write_type(inner);
            out.append(rest.as_str());
            out.append("; ");
            out.append(text::usize_string(*size).as_str());
            out.append("]");
            out
        },
        TypeRepr::FnPointer { params, ret } => {
            let mut out = "fn(".to_owned();
            let list = write_types(params);
            out.append(list.as_str());
            out.append(") -> ");
            let rest = write_type(ret);
            out.append(rest.as_str());
            out
        },
        TypeRepr::Unit => "()".to_owned(),
        TypeRepr::Infer => "_".to_owned(),
    }
}

fn write_types(ts: &Vec<TypeRepr>) -> (r: String)
    ensures
        r@ == text::join(type_texts(ts.deep_view()), ", "@),
    decreases ts,
{
    let mut parts: Vec<String> = Vec::new();
    let mut i: usize = 0;
    while i < ts.len()
        invariant
            i <= ts@.len(),
            parts@.len() == i,
            forall|j: int|
                0 <= j < i ==> (#[trigger] parts@[j])@ == type_text(ts@[j].deep_view()),
        decreases ts@.len() - i,
    {
        parts.push(write_type(&ts[i]));
        i += 1;
    }
    assert(parts.deep_view() =~= type_texts(ts.deep_view()));
    text::join_strings(parts.as_slice(), ", ")
}

impl TypeRepr {
    /// The type as it is written.
    pub fn to_string(&self) -> (r: String)
        ensures
            r@ == type_text(self.deep_view()),
    {
        write_type(self)
    }
}

/// What kind of type definition this is.
#[derive(Debug, Clone, Copy, PartialEq, Eq, Structural)]
pub enum TypeKind {
    Struct,
    Enum,
    Trait,
    TypeAlias,
}

impl DeepView for TypeKind {
    type V = TypeKind;

    open spec fn deep_view(&self) -> TypeKind {
        *self
    }
}

/// The keyword of a kind of type definition.
pub open spec fn type_kind_text(kind: TypeKind) -> Seq<char> {
    match kind {
        TypeKind::Struct => "struct"@,
        TypeKind::Enum => "enum"@,
        TypeKind::Trait => "trait"@,
        TypeKind::TypeAlias => "type"@,
    }
}

impl TypeKind {
    pub fn to_string(&self) -> (r: String)
        ensures
            r@ == type_kind_text(*self),
    {
        match self {
            TypeKind::Struct => "struct".to_owned(),
            TypeKind::Enum => "enum".to_owned(),
            TypeKind::Trait => "trait".to_owned(),
            TypeKind::TypeAlias => "type".to_owned(),
        }
    }
}

/// A generic parameter with optional bounds.
#[derive(Debug, PartialEq, Eq)]
pub struct GenericParam {
    pub name: String,
    pub bounds: Vec<String>,
}

/// What a [`GenericParam`] holds.
#[verifier::ext_equal]
pub struct GenericParamModel {
    pub name: Seq<char>,
    pub bounds: Seq<Seq<char>>,
}

impl DeepView for GenericParam {
    type V = GenericParamModel;

    open spec fn deep_view(&self) -> GenericParamModel {
        GenericParamModel {
            name: self.name.deep_view(),
            bounds: self.bounds.deep_view(),
        }
    }
}

impl Clone for GenericParam {
    fn clone(&self) -> (r: Self)
        ensures
            r.deep_view() == self.deep_view(),
    {
        self.duplicate()
    }
}

impl Duplicate for GenericParam {
    fn duplicate(&self) -> (r: Self) {
        GenericParam {
            name: self.name.duplicate(),
            bounds: self.bounds.duplicate(),
        }
    }
}

/// Visibility of a field or item.
#[derive(Debug, Clone, Copy, PartialEq, Eq, Structural)]
pub enum Visibility {
    Public,
    Private,
}

impl DeepView for Visibility {
    type V = Visibility;

    open spec fn deep_view(&self) -> Visibility {
        *self
    }
}

/// A field of a struct or of an enum variant.
#[derive(Debug, PartialEq, Eq)]
pub struct FieldInfo {
    pub name: String,
    pub type_repr: TypeRepr,
    pub visibility: Visibility,
}

/// What a [`FieldInfo`] holds.
#[verifier::ext_equal]
pub struct FieldInfoModel {
    pub name: Seq<char>,
    pub type_repr: TypeReprModel,
    pub visibility: Visibility,
}

impl DeepView for FieldInfo {
    type V = FieldInfoModel;

    open spec fn deep_view(&self) -> FieldInfoModel {
        FieldInfoModel {
            name: self.name.deep_view(),
            type_repr: self.type_repr.deep_view(),
            visibility: self.visibility,
        }
    }
}

impl Clone for FieldInfo {
    fn clone(&self) -> (r: Self)
        ensures
            r.deep_view() == self.deep_view(),
    {
        self.duplicate()
    }
}

impl Duplicate for FieldInfo {
    fn duplicate(&self) -> (r: Self) {
        FieldInfo {
            name: self.name.duplicate(),
            type_repr: self.type_repr.duplicate(),
            visibility: self.visibility,
        }
    }
}

/// A variant of an enum.
#[derive(Debug, PartialEq, Eq)]
pub struct VariantInfo {
    pub name: String,
    /// Fields of the variant: none for a unit variant, and named `0`, `1`, … for a tuple
    /// variant.
    pub fields: Vec<FieldInfo>,
}

/// What a [`VariantInfo`] holds.
#[verifier::ext_equal]
pub struct VariantInfoModel {
    pub name: Seq<char>,
    pub fields: Seq<FieldInfoModel>,
}

impl DeepView for VariantInfo {
    type V = VariantInfoModel;

    open spec fn deep_view(&self) -> VariantInfoModel {
        VariantInfoModel {
            name: self.name.deep_view(),
            fields: self.fields.deep_view(),
        }
    }
}

impl Clone for VariantInfo {
    fn clone(&self) -> (r: Self)
        ensures
            r.deep_view() == self.deep_view(),
    {
        self.duplicate()
    }
}

impl Duplicate for VariantInfo {
    fn duplicate(&self) -> (r: Self) {
        VariantInfo {
            name: self.name.duplicate(),
            fields: self.fields.duplicate(),
        }
    }
}

/// A type definition extracted from source code.
#[derive(Debug)]
pub struct TypeInfo {
    pub name: String,
    pub kind: TypeKind,
    pub generics: Vec<GenericParam>,
    /// Fields, of a struct.
    pub fields: Vec<FieldInfo>,
    /// Variants, of an enum.
    pub variants: Vec<VariantInfo>,
    /// Traits that the type implements, from `impl Trait for Type` blocks.
    pub trait_impls: Vec<String>,
    /// Derive macros, such as `Clone` or `Serialize`.
    pub derives: Vec<String>,
}

/// What a [`TypeInfo`] holds.
#[verifier::ext_equal]
pub struct TypeInfoModel {
    pub name: Seq<char>,
    pub kind: TypeKind,
    pub generics: Seq<GenericParamModel>,
    pub fields: Seq<FieldInfoModel>,
    pub variants: Seq<VariantInfoModel>,
    pub trait_impls: Seq<Seq<char>>,
    pub derives: Seq<Seq<char>>,
}

impl DeepView for TypeInfo {
    type V = TypeInfoModel;

    open spec fn deep_view(&self) -> TypeInfoModel {
        TypeInfoModel {
            name: self.name.deep_view(),
            kind: self.kind,
            generics: self.generics.deep_view(),
            fields: self.fields.deep_view(),
            variants: self.variants.deep_view(),
            trait_impls: self.trait_impls.deep_view(),
            derives: self.derives.deep_view(),
        }
    }
}

impl Clone for TypeInfo {
    fn clone(&self) -> (r: Self)
        ensures
            r.deep_view() == self.deep_view(),
    {
        self.duplicate()
    }
}

impl Duplicate for TypeInfo {
    fn duplicate(&self) -> (r: Self) {
        TypeInfo {
            name: self.name.duplicate(),
            kind: self.kind,
            generics: self.generics.duplicate(),
            fields: self.fields.duplicate(),
            variants: self.variants.duplicate(),
            trait_impls: self.trait_impls.duplicate(),
            derives: self.derives.duplicate(),
        }
    }
}

/// A function parameter with its type.
#[derive(Debug)]
pub struct ParamInfo {
    pub name: Option<String>,
    pub type_repr: TypeRepr,
    pub is_receiver: bool,
}

/// What a [`ParamInfo`] holds.
#[verifier::ext_equal]
pub struct ParamInfoModel {
    pub name: Option<Seq<char>>,
    pub type_repr: TypeReprModel,
    pub is_receiver: bool,
}

impl DeepView for ParamInfo {
    type V = ParamInfoModel;

    open spec fn deep_view(&self) -> ParamInfoModel {
        ParamInfoModel {
            name: self.name.deep_view(),
            type_repr: self.type_repr.deep_view(),
            is_receiver: self.is_receiver,
        }
    }
}

impl Clone for ParamInfo {
    fn clone(&self) -> (r: Self)
        ensures
            r.deep_view() == self.deep_view(),
    {
        self.duplicate()
    }
}

impl Duplicate for ParamInfo {
    fn duplicate(&self) -> (r: Self) {
        ParamInfo {
            name: self.name.duplicate(),
            type_repr: self.type_repr.duplicate(),
            is_receiver: self.is_receiver,
        }
    }
}

/// A function or method with its types.
#[derive(Debug)]
pub struct FunctionInfo {
    pub name: String,
    pub params: Vec<ParamInfo>,
    pub return_type: Option<TypeRepr>,
    pub generics: Vec<GenericParam>,
}

/// What a [`FunctionInfo`] holds.
#[verifier::ext_equal]
pub struct FunctionInfoModel {
    pub name: Seq<char>,
    pub params: Seq<ParamInfoModel>,
    pub return_type: Option<TypeReprModel>,
    pub generics: Seq<GenericParamModel>,
}

impl DeepView for FunctionInfo {
    type V = FunctionInfoModel;

    open spec fn deep_view(&self) -> FunctionInfoModel {
        FunctionInfoModel {
            name: self.name.deep_view(),
            params: self.params.deep_view(),
            return_type: self.return_type.deep_view(),
            generics: self.generics.deep_view(),
        }
    }
}

impl Clone for FunctionInfo {
    fn clone(&self) -> (r: Self)
        ensures
            r.deep_view() == self.deep_view(),
    {
        self.duplicate()
    }
}

impl Duplicate for FunctionInfo {
    fn duplicate(&self) -> (r: Self) {
        FunctionInfo {
            name: self.name.duplicate(),
            params: self.params.duplicate(),
            return_type: self.return_type.duplicate(),
            generics: self.generics.duplicate(),
        }
    }
}

} // verus!

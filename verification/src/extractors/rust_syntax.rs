//! The parts of a Rust source file that extraction looks at, as plain values.
use vstd::prelude::*;

use crate::data::result_view;

verus! {

// ─── Syntax ───────────────────────────────────────────────────────────────────

/// A type as written in Rust source.
#[derive(Debug)]
pub enum RsType {
    /// The names of a path, whose last one has no arguments
    Path(Vec<String>),
    /// The names of a path, and the arguments of its last one in angle brackets
    Generic { segments: Vec<String>, args: Vec<RsType> },
    /// The names of a path, and the arguments of its last one in parentheses
    Callable { segments: Vec<String>, params: Vec<RsType>, ret: Option<Box<RsType>> },
    Reference { mutable: bool, inner: Box<RsType> },
    Tuple(Vec<RsType>),
    Slice(Box<RsType>),
    /// An array, with its length where that is an integer literal in range
    Array(Box<RsType>, Option<usize>),
    BareFn { params: Vec<RsType>, ret: Option<Box<RsType>> },
    Paren(Box<RsType>),
    Infer,
    /// Any other type, as it is written
    Other(String),
    /// An argument in angle brackets that is no type
    NotType,
}

/// What an [`RsType`] holds.
#[verifier::ext_equal]
pub enum RsTypeModel {
    Path(Seq<Seq<char>>),
    Generic { segments: Seq<Seq<char>>, args: Seq<RsTypeModel> },
    Callable { segments: Seq<Seq<char>>, params: Seq<RsTypeModel>, ret: Option<Box<RsTypeModel>> },
    Reference { mutable: bool, inner: Box<RsTypeModel> },
    Tuple(Seq<RsTypeModel>),
    Slice(Box<RsTypeModel>),
    Array(Box<RsTypeModel>, Option<usize>),
    BareFn { params: Seq<RsTypeModel>, ret: Option<Box<RsTypeModel>> },
    Paren(Box<RsTypeModel>),
    Infer,
    Other(Seq<char>),
    NotType,
}

pub open spec fn rs_type_model(t: RsType) -> RsTypeModel
    decreases t,
{
    match t {
        RsType::Path(segments) => RsTypeModel::Path(segments.deep_view()),
        RsType::Generic { segments, args } => RsTypeModel::Generic {
            segments: segments.deep_view(),
            args: rs_type_models(args),
        },
        RsType::Callable { segments, params, ret } => RsTypeModel::Callable {
            segments: segments.deep_view(),
            params: rs_type_models(params),
            ret: match ret {
                Some(r) => Some(Box::new(rs_type_model(*r))),
                None => None,
            },
        },
        RsType::Reference { mutable, inner } => RsTypeModel::Reference {
            mutable,
            inner: Box::new(rs_type_model(*inner)),
        },
        RsType::Tuple(elems) => RsTypeModel::Tuple(rs_type_models(elems)),
        RsType::Slice(inner) => RsTypeModel::Slice(Box::new(rs_type_model(*inner))),
        RsType::Array(inner, n) => RsTypeModel::Array(Box::new(rs_type_model(*inner)), n),
        RsType::BareFn { params, ret } => RsTypeModel::BareFn {
            params: rs_type_models(params),
            ret: match ret {
                Some(r) => Some(Box::new(rs_type_model(*r))),
                None => None,
            },
        },
        RsType::Paren(inner) => RsTypeModel::Paren(Box::new(rs_type_model(*inner))),
        RsType::Infer => RsTypeModel::Infer,
        RsType::Other(s) => RsTypeModel::Other(s@),
        RsType::NotType => RsTypeModel::NotType,
    }
}

pub open spec fn rs_type_models(ts: Vec<RsType>) -> Seq<RsTypeModel>
    decreases ts,
{
    Seq::new(
        ts@.len(),
        |i: int|
            if 0 <= i < ts@.len() {
                rs_type_model(ts@[i])
            } else {
                RsTypeModel::NotType
            },
    )
}

impl DeepView for RsType {
    type V = RsTypeModel;

    open spec fn deep_view(&self) -> RsTypeModel {
        rs_type_model(*self)
    }
}

/// The model of an optional type.
pub open spec fn rs_option_model(t: Option<Box<RsType>>) -> Option<Box<RsTypeModel>> {
    match t {
        Some(t) => Some(Box::new(rs_type_model(*t))),
        None => None,
    }
}

/// The model of a type, with the models of its lists.
pub proof fn rs_type_model_of_lists(t: RsType)
    ensures
        rs_type_model(t) == match t {
            RsType::Generic { segments, args } => RsTypeModel::Generic {
                segments: segments.deep_view(),
                args: args.deep_view(),
            },
            RsType::Callable { segments, params, ret } => RsTypeModel::Callable {
                segments: segments.deep_view(),
                params: params.deep_view(),
                ret: rs_option_model(ret),
            },
            RsType::Tuple(elems) => RsTypeModel::Tuple(elems.deep_view()),
            RsType::BareFn { params, ret } => RsTypeModel::BareFn {
                params: params.deep_view(),
                ret: rs_option_model(ret),
            },
            _ => rs_type_model(t),
        },
{
    reveal_with_fuel(rs_type_model, 2);
    reveal_with_fuel(rs_type_models, 2);
    match t {
        RsType::Generic { segments, args } => {
            assert(rs_type_models(args) =~= args.deep_view());
        },
        RsType::Callable { segments, params, ret } => {
            assert(rs_type_models(params) =~= params.deep_view());
        },
        RsType::Tuple(elems) => {
            assert(rs_type_models(elems) =~= elems.deep_view());
        },
        RsType::BareFn { params, ret } => {
            assert(rs_type_models(params) =~= params.deep_view());
        },
        _ => {},
    }
}

/// An import.
#[derive(Debug)]
pub enum RsUse {
    Path(String, Box<RsUse>),
    Name(String),
    Rename(String),
    Glob,
    Group(Vec<RsUse>),
}

/// What an [`RsUse`] holds.
#[verifier::ext_equal]
pub enum RsUseModel {
    Path(Seq<char>, Box<RsUseModel>),
    Name(Seq<char>),
    Rename(Seq<char>),
    Glob,
    Group(Seq<RsUseModel>),
}

pub open spec fn rs_use_model(u: RsUse) -> RsUseModel
    decreases u,
{
    match u {
        RsUse::Path(name, rest) => RsUseModel::Path(name@, Box::new(rs_use_model(*rest))),
        RsUse::Name(name) => RsUseModel::Name(name@),
        RsUse::Rename(name) => RsUseModel::Rename(name@),
        RsUse::Glob => RsUseModel::Glob,
        RsUse::Group(items) => RsUseModel::Group(rs_use_models(items)),
    }
}

pub open spec fn rs_use_models(us: Vec<RsUse>) -> Seq<RsUseModel>
    decreases us,
{
    Seq::new(
        us@.len(),
        |i: int|
            if 0 <= i < us@.len() {
                rs_use_model(us@[i])
            } else {
                RsUseModel::Glob
            },
    )
}

impl DeepView for RsUse {
    type V = RsUseModel;

    open spec fn deep_view(&self) -> RsUseModel {
        rs_use_model(*self)
    }
}

/// The model of a group of imports, with the models of its members.
pub proof fn rs_use_model_of_group(u: RsUse)
    ensures
        u matches RsUse::Group(items) ==> rs_use_model(u) == RsUseModel::Group(items.deep_view()),
{
    reveal_with_fuel(rs_use_model, 2);
    reveal_with_fuel(rs_use_models, 2);
    match u {
        RsUse::Group(items) => {
            assert(rs_use_models(items) =~= items.deep_view());
        },
        _ => {},
    }
}

/// A generic parameter.
#[derive(Debug)]
pub enum RsGeneric {
    Type(String, Vec<String>),
    Other,
}

/// What an [`RsGeneric`] holds.
#[verifier::ext_equal]
pub enum RsGenericModel {
    Type(Seq<char>, Seq<Seq<char>>),
    Other,
}

impl DeepView for RsGeneric {
    type V = RsGenericModel;

    open spec fn deep_view(&self) -> RsGenericModel {
        match self {
            RsGeneric::Type(name, bounds) => RsGenericModel::Type(name@, bounds.deep_view()),
            RsGeneric::Other => RsGenericModel::Other,
        }
    }
}

/// A field of a struct or a variant. A field of a tuple has no name.
#[derive(Debug)]
pub struct RsField {
    pub name: Option<String>,
    pub public: bool,
    pub ty: RsType,
}

/// What an [`RsField`] holds.
#[verifier::ext_equal]
pub struct RsFieldModel {
    pub name: Option<Seq<char>>,
    pub public: bool,
    pub ty: RsTypeModel,
}

impl DeepView for RsField {
    type V = RsFieldModel;

    open spec fn deep_view(&self) -> RsFieldModel {
        RsFieldModel {
            name: self.name.deep_view(),
            public: self.public,
            ty: self.ty.deep_view(),
        }
    }
}

/// The fields of a struct or a variant.
#[derive(Debug)]
pub enum RsFields {
    Named(Vec<RsField>),
    Unnamed(Vec<RsField>),
    Unit,
}

/// What an [`RsFields`] holds.
#[verifier::ext_equal]
pub enum RsFieldsModel {
    Named(Seq<RsFieldModel>),
    Unnamed(Seq<RsFieldModel>),
    Unit,
}

impl DeepView for RsFields {
    type V = RsFieldsModel;

    open spec fn deep_view(&self) -> RsFieldsModel {
        match self {
            RsFields::Named(fields) => RsFieldsModel::Named(fields.deep_view()),
            RsFields::Unnamed(fields) => RsFieldsModel::Unnamed(fields.deep_view()),
            RsFields::Unit => RsFieldsModel::Unit,
        }
    }
}

/// An attribute.
#[derive(Debug)]
pub struct RsAttribute {
    /// Its path, where that is a single name
    pub ident: Option<String>,
    /// The names of its path
    pub segments: Vec<String>,
    /// The attribute as it is written
    pub written: String,
    /// The names of the paths that its arguments are, where they are a list of paths
    pub paths: Option<Vec<Vec<String>>>,
}

/// What an [`RsAttribute`] holds.
#[verifier::ext_equal]
pub struct RsAttributeModel {
    pub ident: Option<Seq<char>>,
    pub segments: Seq<Seq<char>>,
    pub written: Seq<char>,
    pub paths: Option<Seq<Seq<Seq<char>>>>,
}

impl DeepView for RsAttribute {
    type V = RsAttributeModel;

    open spec fn deep_view(&self) -> RsAttributeModel {
        RsAttributeModel {
            ident: self.ident.deep_view(),
            segments: self.segments.deep_view(),
            written: self.written@,
            paths: self.paths.deep_view(),
        }
    }
}

/// An argument of a function.
#[derive(Debug)]
pub enum RsArg {
    Receiver { reference: bool, mutable: bool },
    /// An argument with its name, where its pattern is a name, and as it is written
    Typed { name: Option<String>, ty: RsType, written: String },
}

/// What an [`RsArg`] holds.
#[verifier::ext_equal]
pub enum RsArgModel {
    Receiver { reference: bool, mutable: bool },
    Typed { name: Option<Seq<char>>, ty: RsTypeModel, written: Seq<char> },
}

impl DeepView for RsArg {
    type V = RsArgModel;

    open spec fn deep_view(&self) -> RsArgModel {
        match self {
            RsArg::Receiver { reference, mutable } => RsArgModel::Receiver {
                reference: *reference,
                mutable: *mutable,
            },
            RsArg::Typed { name, ty, written } => RsArgModel::Typed {
                name: name.deep_view(),
                ty: ty.deep_view(),
                written: written@,
            },
        }
    }
}

/// The signature of a function, with its return type also as it is written.
#[derive(Debug)]
pub struct RsSignature {
    pub name: String,
    pub generics: Vec<RsGeneric>,
    pub inputs: Vec<RsArg>,
    pub output: Option<(RsType, String)>,
}

/// What an [`RsSignature`] holds.
#[verifier::ext_equal]
pub struct RsSignatureModel {
    pub name: Seq<char>,
    pub generics: Seq<RsGenericModel>,
    pub inputs: Seq<RsArgModel>,
    pub output: Option<(RsTypeModel, Seq<char>)>,
}

impl DeepView for RsSignature {
    type V = RsSignatureModel;

    open spec fn deep_view(&self) -> RsSignatureModel {
        RsSignatureModel {
            name: self.name@,
            generics: self.generics.deep_view(),
            inputs: self.inputs.deep_view(),
            output: self.output.deep_view(),
        }
    }
}

/// A function, or an item of an impl block that is none.
#[derive(Debug)]
pub enum RsMember {
    Method { public: bool, signature: RsSignature },
    Other,
}

/// What an [`RsMember`] holds.
#[verifier::ext_equal]
pub enum RsMemberModel {
    Method { public: bool, signature: RsSignatureModel },
    Other,
}

impl DeepView for RsMember {
    type V = RsMemberModel;

    open spec fn deep_view(&self) -> RsMemberModel {
        match self {
            RsMember::Method { public, signature } => RsMemberModel::Method {
                public: *public,
                signature: signature.deep_view(),
            },
            RsMember::Other => RsMemberModel::Other,
        }
    }
}

/// An item of a source file.
#[derive(Debug)]
pub enum RsItem {
    Use(RsUse),
    Fn { public: bool, signature: RsSignature },
    Struct {
        name: String,
        generics: Vec<RsGeneric>,
        fields: RsFields,
        attributes: Vec<RsAttribute>,
    },
    Enum {
        name: String,
        generics: Vec<RsGeneric>,
        variants: Vec<(String, RsFields)>,
        attributes: Vec<RsAttribute>,
    },
    Trait { name: String, generics: Vec<RsGeneric>, supertraits: Vec<String> },
    TypeAlias { name: String, generics: Vec<RsGeneric> },
    Mod { attributes: Vec<RsAttribute>, items: Option<Vec<RsItem>> },
    /// An impl block: the names of the trait's path, if it is for a trait, and of the type's,
    /// if that is a path
    Impl {
        trait_path: Option<Vec<String>>,
        self_path: Option<Vec<String>>,
        members: Vec<RsMember>,
    },
    /// A constant or a static variable, with the items that stand in it
    Variable { name: String, inner: Vec<RsItem> },
    /// Any other item, with the items that stand in it
    Other { inner: Vec<RsItem> },
}

/// What an [`RsItem`] holds.
#[allow(inconsistent_fields)]
#[verifier::ext_equal]
pub enum RsItemModel {
    Use(RsUseModel),
    Fn { public: bool, signature: RsSignatureModel },
    Struct {
        name: Seq<char>,
        generics: Seq<RsGenericModel>,
        fields: RsFieldsModel,
        attributes: Seq<RsAttributeModel>,
    },
    Enum {
        name: Seq<char>,
        generics: Seq<RsGenericModel>,
        variants: Seq<(Seq<char>, RsFieldsModel)>,
        attributes: Seq<RsAttributeModel>,
    },
    Trait { name: Seq<char>, generics: Seq<RsGenericModel>, supertraits: Seq<Seq<char>> },
    TypeAlias { name: Seq<char>, generics: Seq<RsGenericModel> },
    Mod { attributes: Seq<RsAttributeModel>, items: Option<Seq<RsItemModel>> },
    Impl {
        trait_path: Option<Seq<Seq<char>>>,
        self_path: Option<Seq<Seq<char>>>,
        members: Seq<RsMemberModel>,
    },
    Variable { name: Seq<char>, inner: Seq<RsItemModel> },
    Other { inner: Seq<RsItemModel> },
}

pub open spec fn rs_item_model(i: RsItem) -> RsItemModel
    decreases i,
{
    match i {
        RsItem::Use(u) => RsItemModel::Use(u.deep_view()),
        RsItem::Fn { public, signature } => RsItemModel::Fn {
            public,
            signature: signature.deep_view(),
        },
        RsItem::Struct { name, generics, fields, attributes } => RsItemModel::Struct {
            name: name@,
            generics: generics.deep_view(),
            fields: fields.deep_view(),
            attributes: attributes.deep_view(),
        },
        RsItem::Enum { name, generics, variants, attributes } => RsItemModel::Enum {
            name: name@,
            generics: generics.deep_view(),
            variants: variants.deep_view(),
            attributes: attributes.deep_view(),
        },
        RsItem::Trait { name, generics, supertraits } => RsItemModel::Trait {
            name: name@,
            generics: generics.deep_view(),
            supertraits: supertraits.deep_view(),
        },
        RsItem::TypeAlias { name, generics } => RsItemModel::TypeAlias {
            name: name@,
            generics: generics.deep_view(),
        },
        RsItem::Mod { attributes, items } => RsItemModel::Mod {
            attributes: attributes.deep_view(),
            items: match items {
                Some(items) => Some(rs_item_models(items)),
                None => None,
            },
        },
        RsItem::Impl { trait_path, self_path, members } => RsItemModel::Impl {
            trait_path: trait_path.deep_view(),
            self_path: self_path.deep_view(),
            members: members.deep_view(),
        },
        RsItem::Variable { name, inner } => RsItemModel::Variable {
            name: name@,
            inner: rs_item_models(inner),
        },
        RsItem::Other { inner } => RsItemModel::Other { inner: rs_item_models(inner) },
    }
}

pub open spec fn rs_item_models(items: Vec<RsItem>) -> Seq<RsItemModel>
    decreases items,
{
    Seq::new(
        items@.len(),
        |i: int|
            if 0 <= i < items@.len() {
                rs_item_model(items@[i])
            } else {
                RsItemModel::Other { inner: Seq::empty() }
            },
    )
}

impl DeepView for RsItem {
    type V = RsItemModel;

    open spec fn deep_view(&self) -> RsItemModel {
        rs_item_model(*self)
    }
}

/// The model of an item, with the models of the items in it.
pub proof fn rs_item_model_of_lists(i: RsItem)
    ensures
        rs_item_model(i) == match i {
            RsItem::Mod { attributes, items } => RsItemModel::Mod {
                attributes: attributes.deep_view(),
                items: items.deep_view(),
            },
            RsItem::Variable { name, inner } => RsItemModel::Variable {
                name: name@,
                inner: inner.deep_view(),
            },
            RsItem::Other { inner } => RsItemModel::Other { inner: inner.deep_view() },
            _ => rs_item_model(i),
        },
{
    reveal_with_fuel(rs_item_model, 2);
    reveal_with_fuel(rs_item_models, 2);
    match i {
        RsItem::Mod { attributes, items } => match items {
            Some(list) => {
                assert(rs_item_models(list) =~= list.deep_view());
            },
            None => {},
        },
        RsItem::Variable { name, inner: list } => {
            assert(rs_item_models(list) =~= list.deep_view());
        },
        RsItem::Other { inner: list } => {
            assert(rs_item_models(list) =~= list.deep_view());
        },
        _ => {},
    }
}

// ─── Parsing ──────────────────────────────────────────────────────────────────

/// `syn::Item`
#[verifier::external_type_specification]
#[verifier::external_body]
pub struct ExItem(syn::Item);

/// `syn::UseTree`
#[verifier::external_type_specification]
#[verifier::external_body]
pub struct ExUseTree(syn::UseTree);

/// `syn::Type`
#[verifier::external_type_specification]
#[verifier::external_body]
pub struct ExType(syn::Type);

/// `syn::Path`
#[verifier::external_type_specification]
#[verifier::external_body]
pub struct ExPath(syn::Path);

/// `syn::Expr`
#[verifier::external_type_specification]
#[verifier::external_body]
pub struct ExExpr(syn::Expr);

/// `syn::ReturnType`
#[verifier::external_type_specification]
#[verifier::external_body]
pub struct ExReturnType(syn::ReturnType);

/// `syn::Fields`
#[verifier::external_type_specification]
#[verifier::external_body]
pub struct ExFields(syn::Fields);

/// `syn::Generics`
#[verifier::external_type_specification]
#[verifier::external_body]
pub struct ExGenerics(syn::Generics);

/// `syn::Attribute`
#[verifier::external_type_specification]
#[verifier::external_body]
pub struct ExAttribute(syn::Attribute);

/// `syn::Signature`
#[verifier::external_type_specification]
#[verifier::external_body]
pub struct ExSignature(syn::Signature);

/// `syn::FnArg`
#[verifier::external_type_specification]
#[verifier::external_body]
pub struct ExFnArg(syn::FnArg);

/// `syn::ImplItem`
#[verifier::external_type_specification]
#[verifier::external_body]
pub struct ExImplItem(syn::ImplItem);

/// The items of a Rust source file, or why it cannot be parsed.
pub uninterp spec fn rust_items(source: Seq<char>) -> Result<Seq<RsItemModel>, Seq<char>>;

/// `syn::parse_file`, with the syntax tree turned into plain values: a function of the source
/// text alone.
#[verifier::external_body]
pub(crate) fn parse_items(source: &str) -> (r: Result<Vec<RsItem>, String>)
    ensures
        result_view(r) == rust_items(source@),
{
    match syn::parse_file(source) {
        Ok(file) => Ok(file.items.iter().map(item_node).collect()),
        Err(e) => Err(e.to_string()),
    }
}

/// A `syn::Item` as plain values.
#[verifier::external_body]
fn item_node(item: &syn::Item) -> (r: RsItem) {
    match item {
        syn::Item::Use(u) => RsItem::Use(use_node(&u.tree)),
        syn::Item::Fn(f) => RsItem::Fn {
            public: matches!(f.vis, syn::Visibility::Public(_)),
            signature: signature_node(&f.sig),
        },
        syn::Item::Mod(m) => RsItem::Mod {
            attributes: m.attrs.iter().map(attribute_node).collect(),
            items: m.content.as_ref().map(|c| c.1.iter().map(item_node).collect()),
        },
        _ => definition_node(item),
    }
}

/// A `syn::Item` that defines a type, as plain values.
#[verifier::external_body]
fn definition_node(item: &syn::Item) -> (r: RsItem) {
    match item {
        syn::Item::Struct(s) => RsItem::Struct {
            name: s.ident.to_string(),
            generics: generics_node(&s.generics),
            fields: fields_node(&s.fields),
            attributes: s.attrs.iter().map(attribute_node).collect(),
        },
        syn::Item::Enum(_) => enum_node(item),
        syn::Item::Trait(_) => trait_node(item),
        syn::Item::Impl(_) => impl_node(item),
        _ => other_node(item),
    }
}

/// A `syn::ItemEnum` as plain values.
#[verifier::external_body]
fn enum_node(item: &syn::Item) -> (r: RsItem) {
    match item {
        syn::Item::Enum(e) => RsItem::Enum {
            name: e.ident.to_string(),
            generics: generics_node(&e.generics),
            variants: e.variants.iter().map(|v| (v.ident.to_string(), fields_node(&v.fields))).collect(),
            attributes: e.attrs.iter().map(attribute_node).collect(),
        },
        _ => other_node(item),
    }
}

/// A `syn::ItemTrait` as plain values.
#[verifier::external_body]
fn trait_node(item: &syn::Item) -> (r: RsItem) {
    match item {
        syn::Item::Trait(t) => RsItem::Trait {
            name: t.ident.to_string(),
            generics: generics_node(&t.generics),
            supertraits: t.supertraits.iter().map(
                |b| quote::ToTokens::to_token_stream(b).to_string(),
            ).collect(),
        },
        _ => other_node(item),
    }
}

/// A `syn::ItemImpl` as plain values.
#[verifier::external_body]
fn impl_node(item: &syn::Item) -> (r: RsItem) {
    match item {
        syn::Item::Impl(i) => RsItem::Impl {
            trait_path: i.trait_.as_ref().map(|t| path_names(&t.1)),
            self_path: match i.self_ty.as_ref() {
                syn::Type::Path(p) => Some(path_names(&p.path)),
                _ => None,
            },
            members: i.items.iter().map(member_node).collect(),
        },
        _ => other_node(item),
    }
}

/// A `syn::ItemType`, `syn::ItemConst`, `syn::ItemStatic` or any other `syn::Item`, as plain
/// values.
#[verifier::external_body]
fn other_node(item: &syn::Item) -> (r: RsItem) {
    match item {
        syn::Item::Type(t) => RsItem::TypeAlias {
            name: t.ident.to_string(),
            generics: generics_node(&t.generics),
        },
        syn::Item::Const(c) => RsItem::Variable {
            name: c.ident.to_string(),
            inner: nested_items(item),
        },
        syn::Item::Static(s) => RsItem::Variable {
            name: s.ident.to_string(),
            inner: nested_items(item),
        },
        _ => RsItem::Other { inner: nested_items(item) },
    }
}

/// The items that stand somewhere in another item, outside items that stand in it themselves.
#[derive(Debug)]
pub struct NestedItems {
    pub items: Vec<RsItem>,
}

impl<'ast> syn::visit::Visit<'ast> for NestedItems {
    /// Adds an item that the walk has met, and does not walk through it. Which plain values the
    /// item becomes is left to [`item_node`].
    fn visit_item(&mut self, item: &'ast syn::Item)
        ensures
            final(self).items@.len() == old(self).items@.len() + 1,
            final(self).items@.drop_last() == old(self).items@,
    {
        let ghost before = self.items@;
        self.items.push(item_node(item));
        assert(self.items@.drop_last() =~= before);
    }
}

/// `syn::visit::visit_item`, which walks through all parts of an item and hands each item that
/// it meets to the visitor. Nothing is claimed of the result.
#[verifier::external_body]
fn nested_items(item: &syn::Item) -> (r: Vec<RsItem>) {
    let mut nested = NestedItems { items: Vec::new() };
    syn::visit::visit_item(&mut nested, item);
    nested.items
}

/// A `syn::ImplItem` as plain values.
#[verifier::external_body]
fn member_node(item: &syn::ImplItem) -> (r: RsMember) {
    match item {
        syn::ImplItem::Fn(f) => RsMember::Method {
            public: matches!(f.vis, syn::Visibility::Public(_)),
            signature: signature_node(&f.sig),
        },
        _ => RsMember::Other,
    }
}

/// The names of a `syn::Path`.
#[verifier::external_body]
fn path_names(path: &syn::Path) -> (r: Vec<String>) {
    path.segments.iter().map(|s| s.ident.to_string()).collect()
}

/// A `syn::UseTree` as plain values.
#[verifier::external_body]
fn use_node(tree: &syn::UseTree) -> (r: RsUse) {
    match tree {
        syn::UseTree::Path(p) => RsUse::Path(p.ident.to_string(), Box::new(use_node(&p.tree))),
        syn::UseTree::Name(n) => RsUse::Name(n.ident.to_string()),
        syn::UseTree::Rename(r) => RsUse::Rename(r.ident.to_string()),
        syn::UseTree::Glob(_) => RsUse::Glob,
        syn::UseTree::Group(g) => RsUse::Group(g.items.iter().map(use_node).collect()),
    }
}

/// The parameters of `syn::Generics` as plain values.
#[verifier::external_body]
fn generics_node(generics: &syn::Generics) -> (r: Vec<RsGeneric>) {
    generics.params.iter().map(
        |p| match p {
            syn::GenericParam::Type(t) => RsGeneric::Type(
                t.ident.to_string(),
                t.bounds.iter().map(|b| quote::ToTokens::to_token_stream(b).to_string()).collect(),
            ),
            _ => RsGeneric::Other,
        },
    ).collect()
}

/// A `syn::Fields` as plain values.
#[verifier::external_body]
fn fields_node(fields: &syn::Fields) -> (r: RsFields) {
    let field = |f: &syn::Field| RsField {
        name: f.ident.as_ref().map(|i| i.to_string()),
        public: matches!(f.vis, syn::Visibility::Public(_)),
        ty: type_node(&f.ty),
    };
    match fields {
        syn::Fields::Named(n) => RsFields::Named(n.named.iter().map(field).collect()),
        syn::Fields::Unnamed(u) => RsFields::Unnamed(u.unnamed.iter().map(field).collect()),
        syn::Fields::Unit => RsFields::Unit,
    }
}

/// A `syn::Attribute` as plain values.
#[verifier::external_body]
fn attribute_node(attr: &syn::Attribute) -> (r: RsAttribute) {
    let list = syn::punctuated::Punctuated::<syn::Path, syn::token::Comma>::parse_terminated;
    RsAttribute {
        ident: attr.path().get_ident().map(|i| i.to_string()),
        segments: path_names(attr.path()),
        written: quote::ToTokens::to_token_stream(attr).to_string(),
        paths: attr.parse_args_with(list).ok().map(|ps| ps.iter().map(path_names).collect()),
    }
}

/// A `syn::Signature` as plain values.
#[verifier::external_body]
fn signature_node(sig: &syn::Signature) -> (r: RsSignature) {
    let written = |t: &syn::Type| quote::ToTokens::to_token_stream(t).to_string();
    RsSignature {
        name: sig.ident.to_string(),
        generics: generics_node(&sig.generics),
        inputs: sig.inputs.iter().map(arg_node).collect(),
        output: match &sig.output {
            syn::ReturnType::Type(_, t) => Some((type_node(t), written(t))),
            syn::ReturnType::Default => None,
        },
    }
}

/// A `syn::FnArg` as plain values.
#[verifier::external_body]
fn arg_node(arg: &syn::FnArg) -> (r: RsArg) {
    match arg {
        syn::FnArg::Receiver(r) => RsArg::Receiver {
            reference: r.reference.is_some(),
            mutable: r.mutability.is_some(),
        },
        syn::FnArg::Typed(t) => RsArg::Typed {
            name: match t.pat.as_ref() {
                syn::Pat::Ident(i) => Some(i.ident.to_string()),
                _ => None,
            },
            ty: type_node(&t.ty),
            written: quote::ToTokens::to_token_stream(t).to_string(),
        },
    }
}

/// A `syn::Type` as plain values.
#[verifier::external_body]
fn type_node(ty: &syn::Type) -> (r: RsType) {
    match ty {
        syn::Type::Path(p) => path_node(&p.path),
        syn::Type::Reference(r) => RsType::Reference {
            mutable: r.mutability.is_some(),
            inner: Box::new(type_node(&r.elem)),
        },
        syn::Type::Tuple(t) => RsType::Tuple(t.elems.iter().map(type_node).collect()),
        syn::Type::Slice(s) => RsType::Slice(Box::new(type_node(&s.elem))),
        syn::Type::Paren(p) => RsType::Paren(Box::new(type_node(&p.elem))),
        syn::Type::Infer(_) => RsType::Infer,
        _ => other_type_node(ty),
    }
}

/// A `syn::Type` of the rarer kinds, as plain values.
#[verifier::external_body]
fn other_type_node(ty: &syn::Type) -> (r: RsType) {
    match ty {
        syn::Type::Array(a) => RsType::Array(Box::new(type_node(&a.elem)), length_node(&a.len)),
        syn::Type::BareFn(f) => RsType::BareFn {
            params: f.inputs.iter().map(|a| type_node(&a.ty)).collect(),
            ret: return_node(&f.output),
        },
        _ => RsType::Other(quote::ToTokens::to_token_stream(ty).to_string()),
    }
}

/// A `syn::Path` that is a type, as plain values.
#[verifier::external_body]
fn path_node(path: &syn::Path) -> (r: RsType) {
    let segments = path_names(path);
    match path.segments.last().map(|s| &s.arguments) {
        Some(syn::PathArguments::AngleBracketed(a)) => {
            let arg = |g: &syn::GenericArgument| match g {
                syn::GenericArgument::Type(t) => type_node(t),
                _ => RsType::NotType,
            };
            RsType::Generic { segments, args: a.args.iter().map(arg).collect() }
        },
        Some(syn::PathArguments::Parenthesized(p)) => {
            let params = p.inputs.iter().map(type_node).collect();
            RsType::Callable { segments, params, ret: return_node(&p.output) }
        },
        _ => RsType::Path(segments),
    }
}

/// A `syn::ReturnType` as plain values.
#[verifier::external_body]
fn return_node(output: &syn::ReturnType) -> (r: Option<Box<RsType>>) {
    match output {
        syn::ReturnType::Type(_, t) => Some(Box::new(type_node(t))),
        syn::ReturnType::Default => None,
    }
}

/// The value of a `syn::LitInt` that is an array's length.
#[verifier::external_body]
fn length_node(expr: &syn::Expr) -> (r: Option<usize>) {
    match expr {
        syn::Expr::Lit(l) => match &l.lit {
            syn::Lit::Int(i) => i.base10_parse::<usize>().ok(),
            _ => None,
        },
        _ => None,
    }
}

} // verus!

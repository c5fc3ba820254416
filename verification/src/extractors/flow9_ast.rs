//! Syntax trees of parsed Flow9 modules.
use vstd::prelude::*;

use crate::data::Duplicate;

verus! {

/// A Flow9 type.
#[derive(Debug, PartialEq, Eq)]
pub enum Flow9Type {
    Named(String),
    TypeVar(String),
    Array(Box<Flow9Type>),
    Ref(Box<Flow9Type>),
    FnType(Vec<Flow9Type>, Box<Flow9Type>),
    Parameterized(String, Vec<Flow9Type>),
    Void,
    Bool,
    Int,
    Double,
    Str,
    Flow,
    NativeType,
}

/// What a [`Flow9Type`] holds.
#[verifier::ext_equal]
pub enum Flow9TypeModel {
    Named(Seq<char>),
    TypeVar(Seq<char>),
    Array(Box<Flow9TypeModel>),
    Ref(Box<Flow9TypeModel>),
    FnType(Seq<Flow9TypeModel>, Box<Flow9TypeModel>),
    Parameterized(Seq<char>, Seq<Flow9TypeModel>),
    Void,
    Bool,
    Int,
    Double,
    Str,
    Flow,
    NativeType,
}

pub open spec fn flow9_type_model(t: Flow9Type) -> Flow9TypeModel
    decreases t,
{
    match t {
        Flow9Type::Named(name) => Flow9TypeModel::Named(name@),
        Flow9Type::TypeVar(name) => Flow9TypeModel::TypeVar(name@),
        Flow9Type::Array(inner) => Flow9TypeModel::Array(Box::new(flow9_type_model(*inner))),
        Flow9Type::Ref(inner) => Flow9TypeModel::Ref(Box::new(flow9_type_model(*inner))),
        Flow9Type::FnType(params, ret) => Flow9TypeModel::FnType(
            flow9_type_models(params),
            Box::new(flow9_type_model(*ret)),
        ),
        Flow9Type::Parameterized(name, args) => Flow9TypeModel::Parameterized(
            name@,
            flow9_type_models(args),
        ),
        Flow9Type::Void => Flow9TypeModel::Void,
        Flow9Type::Bool => Flow9TypeModel::Bool,
        Flow9Type::Int => Flow9TypeModel::Int,
        Flow9Type::Double => Flow9TypeModel::Double,
        Flow9Type::Str => Flow9TypeModel::Str,
        Flow9Type::Flow => Flow9TypeModel::Flow,
        Flow9Type::NativeType => Flow9TypeModel::NativeType,
    }
}

pub open spec fn flow9_type_models(ts: Vec<Flow9Type>) -> Seq<Flow9TypeModel>
    decreases ts,
{
    Seq::new(
        ts@.len(),
        |i: int|
            if 0 <= i < ts@.len() {
                flow9_type_model(ts@[i])
            } else {
                Flow9TypeModel::Void
            },
    )
}

impl DeepView for Flow9Type {
    type V = Flow9TypeModel;

    open spec fn deep_view(&self) -> Flow9TypeModel {
        flow9_type_model(*self)
    }
}

/// The model of a type, with the models of its lists.
pub proof fn flow9_type_model_of_lists(t: Flow9Type)
    ensures
        flow9_type_model(t) == match t {
            Flow9Type::FnType(params, ret) => Flow9TypeModel::FnType(
                params.deep_view(),
                Box::new(flow9_type_model(*ret)),
            ),
            Flow9Type::Parameterized(name, args) => Flow9TypeModel::Parameterized(
                name@,
                args.deep_view(),
            ),
            _ => flow9_type_model(t),
        },
{
    reveal_with_fuel(flow9_type_model, 2);
    reveal_with_fuel(flow9_type_models, 2);
    match t {
        Flow9Type::FnType(params, _) => {
            assert(flow9_type_models(params) =~= params.deep_view());
        },
        Flow9Type::Parameterized(_, args) => {
            assert(flow9_type_models(args) =~= args.deep_view());
        },
        _ => {},
    }
}

fn copy_flow9_type(t: &Flow9Type) -> (r: Flow9Type)
    ensures
        r.deep_view() == t.deep_view(),
    decreases t,
{
    let r = match t {
        Flow9Type::Named(name) => Flow9Type::Named(name.clone()),
        Flow9Type::TypeVar(name) => Flow9Type::TypeVar(name.clone()),
        Flow9Type::Array(inner) => Flow9Type::Array(Box::new(copy_flow9_type(inner))),
        Flow9Type::Ref(inner) => Flow9Type::Ref(Box::new(copy_flow9_type(inner))),
        Flow9Type::FnType(params, ret) => Flow9Type::FnType(
            copy_flow9_types(params),
            Box::new(copy_flow9_type(ret)),
        ),
        Flow9Type::Parameterized(name, args) => Flow9Type::Parameterized(
            name.clone(),
            copy_flow9_types(args),
        ),
        Flow9Type::Void => Flow9Type::Void,
        Flow9Type::Bool => Flow9Type::Bool,
        Flow9Type::Int => Flow9Type::Int,
        Flow9Type::Double => Flow9Type::Double,
        Flow9Type::Str => Flow9Type::Str,
        Flow9Type::Flow => Flow9Type::Flow,
        Flow9Type::NativeType => Flow9Type::NativeType,
    };
    proof {
        flow9_type_model_of_lists(*t);
        flow9_type_model_of_lists(r);
    }
    r
}

fn copy_flow9_types(ts: &Vec<Flow9Type>) -> (r: Vec<Flow9Type>)
    ensures
        r.deep_view() == ts.deep_view(),
    decreases ts,
{
    let mut out: Vec<Flow9Type> = Vec::new();
    let mut i: usize = 0;
    while i < ts.len()
        invariant
            i <= ts@.len(),
            out@.len() == i,
            forall|j: int| 0 <= j < i ==> (#[trigger] out@[j]).deep_view() == ts@[j].deep_view(),
        decreases ts@.len() - i,
    {
        out.push(copy_flow9_type(&ts[i]));
        i += 1;
    }
    assert(out.deep_view() =~= ts.deep_view());
    out
}

impl Clone for Flow9Type {
    fn clone(&self) -> (r: Self)
        ensures
            r.deep_view() == self.deep_view(),
    {
        self.duplicate()
    }
}

impl Duplicate for Flow9Type {
    fn duplicate(&self) -> (r: Self) {
        copy_flow9_type(self)
    }
}

/// An argument of a function, or a field of a struct.
#[derive(Debug)]
pub struct FunArg {
    pub mutable: bool,
    pub name: String,
    pub type_annotation: Option<Flow9Type>,
}

/// What a [`FunArg`] holds.
#[verifier::ext_equal]
pub struct FunArgModel {
    pub mutable: bool,
    pub name: Seq<char>,
    pub type_annotation: Option<Flow9TypeModel>,
}

impl DeepView for FunArg {
    type V = FunArgModel;

    open spec fn deep_view(&self) -> FunArgModel {
        FunArgModel {
            mutable: self.mutable,
            name: self.name.deep_view(),
            type_annotation: self.type_annotation.deep_view(),
        }
    }
}

impl Clone for FunArg {
    fn clone(&self) -> (r: Self)
        ensures
            r.deep_view() == self.deep_view(),
    {
        self.duplicate()
    }
}

impl Duplicate for FunArg {
    fn duplicate(&self) -> (r: Self) {
        FunArg {
            mutable: self.mutable,
            name: self.name.duplicate(),
            type_annotation: self.type_annotation.duplicate(),
        }
    }
}

/// The type of an argument in a function declaration.
#[derive(Debug)]
pub struct ArgType {
    pub name: Option<String>,
    pub type_: Flow9Type,
}

/// What a [`ArgType`] holds.
#[verifier::ext_equal]
pub struct ArgTypeModel {
    pub name: Option<Seq<char>>,
    pub type_: Flow9TypeModel,
}

impl DeepView for ArgType {
    type V = ArgTypeModel;

    open spec fn deep_view(&self) -> ArgTypeModel {
        ArgTypeModel {
            name: self.name.deep_view(),
            type_: self.type_.deep_view(),
        }
    }
}

impl Clone for ArgType {
    fn clone(&self) -> (r: Self)
        ensures
            r.deep_view() == self.deep_view(),
    {
        self.duplicate()
    }
}

impl Duplicate for ArgType {
    fn duplicate(&self) -> (r: Self) {
        ArgType {
            name: self.name.duplicate(),
            type_: self.type_.duplicate(),
        }
    }
}

/// The name of a union variant.
#[derive(Debug)]
pub struct TypeName {
    pub name: String,
    pub type_params: Vec<Flow9Type>,
}

/// What a [`TypeName`] holds.
#[verifier::ext_equal]
pub struct TypeNameModel {
    pub name: Seq<char>,
    pub type_params: Seq<Flow9TypeModel>,
}

impl DeepView for TypeName {
    type V = TypeNameModel;

    open spec fn deep_view(&self) -> TypeNameModel {
        TypeNameModel {
            name: self.name.deep_view(),
            type_params: self.type_params.deep_view(),
        }
    }
}

impl Clone for TypeName {
    fn clone(&self) -> (r: Self)
        ensures
            r.deep_view() == self.deep_view(),
    {
        self.duplicate()
    }
}

impl Duplicate for TypeName {
    fn duplicate(&self) -> (r: Self) {
        TypeName {
            name: self.name.duplicate(),
            type_params: self.type_params.duplicate(),
        }
    }
}

/// A declaration of a Flow9 module.
#[allow(inconsistent_fields)]
#[derive(Debug)]
pub enum Decl {
    Import(String),
    Forbid(String),
    Native { name: String, io: bool, type_sig: Flow9Type, binding: String },
    Union { name: String, type_params: Vec<String>, variants: Vec<TypeName> },
    Function {
        name: String,
        args: Vec<FunArg>,
        return_type: Option<Flow9Type>,
        body: Option<String>,
        exported: bool,
    },
    FunctionDecl { name: String, arg_types: Vec<ArgType>, return_type: Flow9Type, exported: bool },
    StructDecl { name: String, fields: Vec<FunArg>, exported: bool },
    VarDecl { name: String, type_annotation: Flow9Type, has_init: bool, exported: bool },
    Assign { name: String, body: String, exported: bool },
}

/// What a [`Decl`] holds.
#[allow(inconsistent_fields)]
#[verifier::ext_equal]
pub enum DeclModel {
    Import(Seq<char>),
    Forbid(Seq<char>),
    Native { name: Seq<char>, io: bool, type_sig: Flow9TypeModel, binding: Seq<char> },
    Union { name: Seq<char>, type_params: Seq<Seq<char>>, variants: Seq<TypeNameModel> },
    Function {
        name: Seq<char>,
        args: Seq<FunArgModel>,
        return_type: Option<Flow9TypeModel>,
        body: Option<Seq<char>>,
        exported: bool,
    },
    FunctionDecl {
        name: Seq<char>,
        arg_types: Seq<ArgTypeModel>,
        return_type: Flow9TypeModel,
        exported: bool,
    },
    StructDecl { name: Seq<char>, fields: Seq<FunArgModel>, exported: bool },
    VarDecl { name: Seq<char>, type_annotation: Flow9TypeModel, has_init: bool, exported: bool },
    Assign { name: Seq<char>, body: Seq<char>, exported: bool },
}

impl DeepView for Decl {
    type V = DeclModel;

    open spec fn deep_view(&self) -> DeclModel {
        match self {
            Decl::Import(path) => DeclModel::Import(path@),
            Decl::Forbid(path) => DeclModel::Forbid(path@),
            Decl::Native { name, io, type_sig, binding } => DeclModel::Native {
                name: name.deep_view(),
                io: *io,
                type_sig: type_sig.deep_view(),
                binding: binding.deep_view(),
            },
            Decl::Union { name, type_params, variants } => DeclModel::Union {
                name: name.deep_view(),
                type_params: type_params.deep_view(),
                variants: variants.deep_view(),
            },
            Decl::Function { name, args, return_type, body, exported } => DeclModel::Function {
                name: name.deep_view(),
                args: args.deep_view(),
                return_type: return_type.deep_view(),
                body: body.deep_view(),
                exported: *exported,
            },
            Decl::FunctionDecl { name, arg_types, return_type, exported } => DeclModel::FunctionDecl {
                name: name.deep_view(),
                arg_types: arg_types.deep_view(),
                return_type: return_type.deep_view(),
                exported: *exported,
            },
            Decl::StructDecl { name, fields, exported } => DeclModel::StructDecl {
                name: name.deep_view(),
                fields: fields.deep_view(),
                exported: *exported,
            },
            Decl::VarDecl { name, type_annotation, has_init, exported } => DeclModel::VarDecl {
                name: name.deep_view(),
                type_annotation: type_annotation.deep_view(),
                has_init: *has_init,
                exported: *exported,
            },
            Decl::Assign { name, body, exported } => DeclModel::Assign {
                name: name.deep_view(),
                body: body.deep_view(),
                exported: *exported,
            },
        }
    }
}

impl Clone for Decl {
    fn clone(&self) -> (r: Self)
        ensures
            r.deep_view() == self.deep_view(),
    {
        self.duplicate()
    }
}

impl Duplicate for Decl {
    fn duplicate(&self) -> (r: Self) {
        match self {
            Decl::Import(path) => Decl::Import(path.clone()),
            Decl::Forbid(path) => Decl::Forbid(path.clone()),
            Decl::Native { name, io, type_sig, binding } => Decl::Native {
                name: name.duplicate(),
                io: *io,
                type_sig: type_sig.duplicate(),
                binding: binding.duplicate(),
            },
            Decl::Union { name, type_params, variants } => Decl::Union {
                name: name.duplicate(),
                type_params: type_params.duplicate(),
                variants: variants.duplicate(),
            },
            Decl::Function { name, args, return_type, body, exported } => Decl::Function {
                name: name.duplicate(),
                args: args.duplicate(),
                return_type: return_type.duplicate(),
                body: body.duplicate(),
                exported: *exported,
            },
            Decl::FunctionDecl { name, arg_types, return_type, exported } => Decl::FunctionDecl {
                name: name.duplicate(),
                arg_types: arg_types.duplicate(),
                return_type: return_type.duplicate(),
                exported: *exported,
            },
            Decl::StructDecl { name, fields, exported } => Decl::StructDecl {
                name: name.duplicate(),
                fields: fields.duplicate(),
                exported: *exported,
            },
            Decl::VarDecl { name, type_annotation, has_init, exported } => Decl::VarDecl {
                name: name.duplicate(),
                type_annotation: type_annotation.duplicate(),
                has_init: *has_init,
                exported: *exported,
            },
            Decl::Assign { name, body, exported } => Decl::Assign {
                name: name.duplicate(),
                body: body.duplicate(),
                exported: *exported,
            },
        }
    }
}

/// A parsed Flow9 module.
#[derive(Debug)]
pub struct Flow9Module {
    pub imports: Vec<String>,
    pub forbids: Vec<String>,
    pub exports: Vec<String>,
    pub declarations: Vec<Decl>,
}

/// What a [`Flow9Module`] holds.
#[verifier::ext_equal]
pub struct Flow9ModuleModel {
    pub imports: Seq<Seq<char>>,
    pub forbids: Seq<Seq<char>>,
    pub exports: Seq<Seq<char>>,
    pub declarations: Seq<DeclModel>,
}

impl DeepView for Flow9Module {
    type V = Flow9ModuleModel;

    open spec fn deep_view(&self) -> Flow9ModuleModel {
        Flow9ModuleModel {
            imports: self.imports.deep_view(),
            forbids: self.forbids.deep_view(),
            exports: self.exports.deep_view(),
            declarations: self.declarations.deep_view(),
        }
    }
}

impl Clone for Flow9Module {
    fn clone(&self) -> (r: Self)
        ensures
            r.deep_view() == self.deep_view(),
    {
        self.duplicate()
    }
}

impl Duplicate for Flow9Module {
    fn duplicate(&self) -> (r: Self) {
        Flow9Module {
            imports: self.imports.duplicate(),
            forbids: self.forbids.duplicate(),
            exports: self.exports.duplicate(),
            declarations: self.declarations.duplicate(),
        }
    }
}

} // verus!

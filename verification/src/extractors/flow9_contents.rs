//! What an extracted Flow9 module holds of its declarations.
use vstd::prelude::*;

use super::flow9::{
    arg_type_params, fields_of, flow9_text, fun_arg_params, stripped_from, type_repr_of,
    type_reprs_of, unnamed_params, variants_of, with_decl, with_decls, without_comments,
};
use super::flow9_ast::{ArgTypeModel, DeclModel, Flow9TypeModel, FunArgModel, TypeNameModel};
use super::ExtractedModuleModel;
use crate::data::{
    has_key, lemma_key_index, lemma_with_name, lookup, lookup_after_insert, lookup_of_other_key,
};
use crate::text;
use crate::types::{TypeKind, TypeReprModel, Visibility};

verus! {

// ─── Types ────────────────────────────────────────────────────────────────────

/// Types keep their structure: what an array, a reference, a function or a type with arguments
/// is made of is so in the language-neutral type, in its order.
pub proof fn types_keep_their_structure(
    t: Flow9TypeModel,
    name: Seq<char>,
    ts: Seq<Flow9TypeModel>,
    i: int,
)
    ensures
        type_repr_of(Flow9TypeModel::Named(name)) == TypeReprModel::Named(name),
        type_repr_of(Flow9TypeModel::TypeVar(name)) == TypeReprModel::Named(name),
        type_repr_of(Flow9TypeModel::Array(Box::new(t))) == TypeReprModel::Applied(
            Box::new(TypeReprModel::Named("Array"@)),
            seq![type_repr_of(t)],
        ),
        type_repr_of(Flow9TypeModel::Ref(Box::new(t))) == TypeReprModel::Applied(
            Box::new(TypeReprModel::Named("ref"@)),
            seq![type_repr_of(t)],
        ),
        type_repr_of(Flow9TypeModel::FnType(ts, Box::new(t))) matches TypeReprModel::FnPointer {
            params,
            ret,
        } && *ret == type_repr_of(t) && params.len() == ts.len() && (0 <= i < ts.len() ==> params[i]
            == type_repr_of(ts[i])),
        type_repr_of(Flow9TypeModel::Parameterized(name, ts)) matches TypeReprModel::Applied(
            base,
            args,
        ) && *base == TypeReprModel::Named(name) && args.len() == ts.len() && (0 <= i < ts.len()
            ==> args[i] == type_repr_of(ts[i])),
{
    reveal_with_fuel(type_repr_of, 2);
    reveal_with_fuel(type_reprs_of, 2);
}

// ─── Functions ────────────────────────────────────────────────────────────────

/// A function that is declared is known with the names and types of its arguments, the type
/// that it returns, and its signature; it is public exactly where it is exported, and private
/// otherwise.
pub proof fn declared_functions_are_known(
    m: ExtractedModuleModel,
    name: Seq<char>,
    args: Seq<ArgTypeModel>,
    ret: Flow9TypeModel,
    exported: bool,
    exports: Seq<Seq<char>>,
)
    requires
        name.len() > 0,
        !text::is_uppercase(name[0]),
    ensures
        ({
            let d = DeclModel::FunctionDecl {
                name,
                arg_types: args,
                return_type: ret,
                exported,
            };
            let after = with_decl(m, d, exports);
            &&& lookup(after.function_info, name) matches Some(f) && f.name == name
                && f.return_type == Some(type_repr_of(ret)) && f.params.len() == args.len()
                && forall|i: int|
                0 <= i < args.len() ==> (#[trigger] f.params[i]).name == args[i].name
                    && f.params[i].type_repr == type_repr_of(args[i].type_)
                    && !f.params[i].is_receiver
            &&& lookup(after.function_signatures, name) matches Some(s) && text::starts_with(
                s,
                "("@,
            ) && text::ends_with(s, ") -> "@ + flow9_text(ret))
            &&& exported || exports.contains(name) ==> after.public_functions.contains(name)
                && after.private_functions == m.private_functions
            &&& !exported && !exports.contains(name) ==> after.private_functions.contains(name)
                && after.public_functions == m.public_functions
        }),
{
    let d = DeclModel::FunctionDecl { name, arg_types: args, return_type: ret, exported };
    let after = with_decl(m, d, exports);
    let info = super::flow9::function_info(name, arg_type_params(args), Some(type_repr_of(ret)));
    let sig = super::flow9::signature(super::flow9::arg_type_texts(args), Some(flow9_text(ret)));
    lookup_after_insert(m.function_info, name, info);
    lookup_after_insert(m.function_signatures, name, sig);
    lemma_with_name(m.public_functions, name);
    lemma_with_name(m.private_functions, name);
    lemma_signature(super::flow9::arg_type_texts(args), flow9_text(ret));
}

proof fn lemma_signature(params: Seq<Seq<char>>, ret: Seq<char>)
    ensures
        text::starts_with(super::flow9::signature(params, Some(ret)), "("@),
        text::ends_with(super::flow9::signature(params, Some(ret)), ") -> "@ + ret),
{
    let s = super::flow9::signature(params, Some(ret));
    let tail = ") -> "@ + ret;
    assert(s.subrange(0, "("@.len() as int) =~= "("@);
    assert(s.take("("@.len() as int) =~= "("@);
    assert(s.subrange(s.len() - tail.len(), s.len() as int) =~= tail);
    assert(s.skip(s.len() - tail.len()) =~= tail);
}

/// A function that is defined is known with the names of its arguments, the types that they are
/// annotated with, and the type that it returns, unless it was declared before.
pub proof fn defined_functions_are_known(
    m: ExtractedModuleModel,
    name: Seq<char>,
    args: Seq<FunArgModel>,
    ret: Option<Flow9TypeModel>,
    body: Option<Seq<char>>,
    exported: bool,
    exports: Seq<Seq<char>>,
)
    requires
        name.len() > 0,
        !text::is_uppercase(name[0]),
        name != "if"@,
        name != "switch"@,
        name != "export"@,
        name != "import"@,
        name != "native"@,
    ensures
        ({
            let d = DeclModel::Function { name, args, return_type: ret, body, exported };
            let after = with_decl(m, d, exports);
            &&& lookup(m.function_info, name) is None ==> (lookup(after.function_info, name) matches
                Some(f) && f.name == name && f.params.len() == args.len() && (match ret {
                Some(t) => f.return_type == Some(type_repr_of(t)),
                None => f.return_type is None,
            }) && forall|i: int|
                0 <= i < args.len() ==> (#[trigger] f.params[i]).name == Some(args[i].name)
                    && f.params[i].type_repr == (match args[i].type_annotation {
                    Some(t) => type_repr_of(t),
                    None => TypeReprModel::Infer,
                }))
            &&& lookup(m.function_info, name) is Some ==> after.function_info == m.function_info
            &&& exported || exports.contains(name) ==> after.public_functions.contains(name)
            &&& !exported && !exports.contains(name) && !m.public_functions.contains(name)
                ==> after.private_functions.contains(name) && after.public_functions
                == m.public_functions
        }),
{
    let info = super::flow9::function_info(
        name,
        fun_arg_params(args),
        super::flow9::optional_type(ret),
    );
    lookup_after_insert(m.function_info, name, info);
    lemma_key_index(m.function_info, name);
    lemma_with_name(m.public_functions, name);
    lemma_with_name(m.private_functions, name);
}

/// A native function is known with the types of its arguments and the type that it returns; it
/// is public exactly where it is exported.
pub proof fn native_functions_are_known(
    m: ExtractedModuleModel,
    name: Seq<char>,
    params: Seq<Flow9TypeModel>,
    ret: Flow9TypeModel,
    io: bool,
    binding: Seq<char>,
    exports: Seq<Seq<char>>,
)
    ensures
        ({
            let d = DeclModel::Native {
                name,
                io,
                type_sig: Flow9TypeModel::FnType(params, Box::new(ret)),
                binding,
            };
            let after = with_decl(m, d, exports);
            &&& lookup(after.function_info, name) matches Some(f) && f.return_type == Some(
                type_repr_of(ret),
            ) && f.params.len() == params.len() && forall|i: int|
                0 <= i < params.len() ==> (#[trigger] f.params[i]).type_repr == type_repr_of(
                    params[i],
                )
            &&& exports.contains(name) ==> after.public_functions.contains(name)
            &&& !exports.contains(name) ==> after.public_functions == m.public_functions
        }),
{
    let info = super::flow9::function_info(
        name,
        unnamed_params(params),
        Some(type_repr_of(ret)),
    );
    lookup_after_insert(m.function_info, name, info);
    lemma_with_name(m.public_functions, name);
}

// ─── Types of a module ────────────────────────────────────────────────────────

/// A struct is known with the names and types of its fields; it is public exactly where it is
/// exported.
pub proof fn structs_are_known(
    m: ExtractedModuleModel,
    name: Seq<char>,
    fields: Seq<FunArgModel>,
    exported: bool,
    exports: Seq<Seq<char>>,
)
    requires
        !has_key(m.type_definitions, name),
    ensures
        ({
            let after = with_decl(m, DeclModel::StructDecl { name, fields, exported }, exports);
            &&& lookup(after.type_definitions, name) matches Some(t) && t.name == name && t.kind
                == TypeKind::Struct && t.variants.len() == 0 && t.fields.len() == fields.len()
                && forall|i: int|
                0 <= i < fields.len() ==> (#[trigger] t.fields[i]).name == fields[i].name
                    && t.fields[i].visibility == Visibility::Public && t.fields[i].type_repr == (
                match fields[i].type_annotation {
                    Some(t) => type_repr_of(t),
                    None => TypeReprModel::Infer,
                })
            &&& exported || exports.contains(name) ==> after.public_functions.contains(name)
            &&& !exported && !exports.contains(name) ==> after.public_functions
                == m.public_functions
        }),
{
    let info = super::flow9::type_info(name, TypeKind::Struct, fields_of(fields), Seq::empty());
    lookup_after_insert(m.type_definitions, name, info);
    lemma_with_name(m.public_functions, name);
}

/// A union is known as an enumeration of its variants; it is public exactly where it is
/// exported.
pub proof fn unions_are_known(
    m: ExtractedModuleModel,
    name: Seq<char>,
    type_params: Seq<Seq<char>>,
    variants: Seq<TypeNameModel>,
    exports: Seq<Seq<char>>,
)
    ensures
        ({
            let after = with_decl(m, DeclModel::Union { name, type_params, variants }, exports);
            &&& lookup(after.type_definitions, name) matches Some(t) && t.name == name && t.kind
                == TypeKind::Enum && t.fields.len() == 0 && t.variants.len() == variants.len()
                && forall|i: int|
                0 <= i < variants.len() ==> (#[trigger] t.variants[i]).name == variants[i].name
            &&& exports.contains(name) ==> after.public_functions.contains(name)
            &&& !exports.contains(name) ==> after.public_functions == m.public_functions
        }),
{
    let info = super::flow9::type_info(name, TypeKind::Enum, Seq::empty(), variants_of(variants));
    lookup_after_insert(m.type_definitions, name, info);
    lemma_with_name(m.public_functions, name);
}

// ─── Imports and variables ────────────────────────────────────────────────────

/// An import is listed, once; a forbidden one adds nothing.
pub proof fn imports_are_kept(m: ExtractedModuleModel, path: Seq<char>, exports: Seq<Seq<char>>)
    ensures
        with_decl(m, DeclModel::Import(path), exports).imports.contains(path),
        m.imports.contains(path) ==> with_decl(m, DeclModel::Import(path), exports).imports
            == m.imports,
        !m.imports.contains(path) ==> with_decl(m, DeclModel::Import(path), exports).imports
            == m.imports.push(path),
        with_decl(m, DeclModel::Forbid(path), exports) == m,
{
    lemma_with_name(m.imports, path);
}

/// A variable is state of the module exactly where it is exported.
pub proof fn exported_variables_are_state(
    m: ExtractedModuleModel,
    name: Seq<char>,
    t: Flow9TypeModel,
    has_init: bool,
    exported: bool,
    exports: Seq<Seq<char>>,
)
    ensures
        ({
            let d = DeclModel::VarDecl { name, type_annotation: t, has_init, exported };
            let after = with_decl(m, d, exports);
            &&& exported || exports.contains(name) ==> after.state_variables.contains(name)
            &&& !exported && !exports.contains(name) ==> after == m
        }),
{
    lemma_with_name(m.state_variables, name);
}

/// A value that is exported is state of the module, unless its name is that of a function, a
/// type, or a member of a type.
pub proof fn exported_values_are_state(
    m: ExtractedModuleModel,
    name: Seq<char>,
    body: Seq<char>,
    exported: bool,
    exports: Seq<Seq<char>>,
)
    ensures
        ({
            let after = with_decl(m, DeclModel::Assign { name, body, exported }, exports);
            let known = has_key(m.function_signatures, name) || has_key(m.function_info, name)
                || has_key(m.type_definitions, name) || super::flow9::is_member(
                m.type_definitions,
                name,
            );
            &&& (exported || exports.contains(name)) && !known ==> after.state_variables.contains(
                name,
            )
            &&& !exported && !exports.contains(name) || known ==> after == m
        }),
{
    lemma_with_name(m.state_variables, name);
}

/// What one declaration says of a function stays, whatever other functions are declared.
pub proof fn other_functions_are_kept(
    m: ExtractedModuleModel,
    name: Seq<char>,
    args: Seq<ArgTypeModel>,
    ret: Flow9TypeModel,
    exported: bool,
    exports: Seq<Seq<char>>,
    other: Seq<char>,
)
    requires
        other != name,
    ensures
        ({
            let d = DeclModel::FunctionDecl {
                name,
                arg_types: args,
                return_type: ret,
                exported,
            };
            let after = with_decl(m, d, exports);
            &&& lookup(after.function_info, other) == lookup(m.function_info, other)
            &&& lookup(after.function_signatures, other) == lookup(m.function_signatures, other)
            &&& after.type_definitions == m.type_definitions
            &&& after.imports == m.imports
        }),
{
    let info = super::flow9::function_info(name, arg_type_params(args), Some(type_repr_of(ret)));
    let sig = super::flow9::signature(super::flow9::arg_type_texts(args), Some(flow9_text(ret)));
    lookup_of_other_key(m.function_info, name, info, other);
    lookup_of_other_key(m.function_signatures, name, sig, other);
}

/// Every declaration is taken up, one after the other.
pub proof fn declarations_are_taken_up_in_order(
    m: ExtractedModuleModel,
    decls: Seq<DeclModel>,
    d: DeclModel,
    exports: Seq<Seq<char>>,
)
    ensures
        with_decls(m, decls.push(d), exports) == with_decl(
            with_decls(m, decls, exports),
            d,
            exports,
        ),
        with_decls(m, Seq::empty(), exports) == m,
{
    assert(decls.push(d).drop_last() =~= decls);
}

// ─── Comments ─────────────────────────────────────────────────────────────────

proof fn lemma_kept(s: Seq<char>, i: int, e: int, done: Seq<char>)
    requires
        0 <= i <= e <= s.len(),
        forall|j: int| i <= j < e ==> #[trigger] s[j] != '"' && s[j] != '/',
    ensures
        stripped_from(s, i, done) == stripped_from(s, e, done + s.subrange(i, e)),
    decreases e - i,
{
    if i < e {
        assert(s[i] != '"' && s[i] != '/');
        lemma_kept(s, i + 1, e, done.push(s[i]));
        assert(done.push(s[i]) + s.subrange(i + 1, e) =~= done + s.subrange(i, e));
    } else {
        assert(done + s.subrange(i, e) =~= done);
    }
}

/// A text without quotes and slashes stays as it is.
pub proof fn code_without_comments_stays(s: Seq<char>)
    requires
        text::lacks(s, '"'),
        text::lacks(s, '/'),
    ensures
        without_comments(s) == s,
{
    let n = s.len() as int;
    assert forall|j: int| 0 <= j < n implies #[trigger] s[j] != '"' && s[j] != '/' by {}
    lemma_kept(s, 0, n, Seq::empty());
    assert(Seq::<char>::empty() + s.subrange(0, n) =~= s);
}

proof fn lemma_newline(s: Seq<char>, from: int, k: int)
    requires
        0 <= from <= k < s.len(),
        s[k] == '\n',
        forall|j: int| from <= j < k ==> #[trigger] s[j] != '\n',
    ensures
        text::find_char_from(s, '\n', from) == Some(k),
    decreases k - from,
{
    if from < k {
        assert(s[from] != '\n');
        lemma_newline(s, from + 1, k);
    }
}

/// A comment at the end of a line is dropped, and nothing else is.
pub proof fn line_comments_are_dropped(a: Seq<char>, comment: Seq<char>, b: Seq<char>)
    requires
        text::lacks(a, '"'),
        text::lacks(a, '/'),
        text::lacks(comment, '\n'),
        text::lacks(b, '"'),
        text::lacks(b, '/'),
    ensures
        without_comments(a + seq!['/', '/'] + comment + seq!['\n'] + b) == a + seq!['\n'] + b,
{
    let s = a + seq!['/', '/'] + comment + seq!['\n'] + b;
    let n = a.len() as int;
    let k = n + 2 + comment.len();
    assert forall|j: int| 0 <= j < n implies #[trigger] s[j] != '"' && s[j] != '/' by {
        assert(s[j] == a[j]);
    }
    lemma_kept(s, 0, n, Seq::empty());
    assert(Seq::<char>::empty() + s.subrange(0, n) =~= a);
    assert(s[n] == '/' && s[n + 1] == '/');
    assert(s[k] == '\n');
    assert forall|j: int| n + 1 <= j < k implies #[trigger] s[j] != '\n' by {
        if j > n + 1 {
            assert(s[j] == comment[j - n - 2]);
        }
    }
    lemma_newline(s, n + 1, k);
    let m = s.len() as int;
    assert forall|j: int| k + 1 <= j < m implies #[trigger] s[j] != '"' && s[j] != '/' by {
        assert(s[j] == b[j - k - 1]);
    }
    lemma_kept(s, k + 1, m, a.push('\n'));
    assert(a.push('\n') + s.subrange(k + 1, m) =~= a + seq!['\n'] + b);
}

/// A comment between `/*` and `*/` is dropped, and nothing else is.
pub proof fn block_comments_are_dropped(a: Seq<char>, comment: Seq<char>, b: Seq<char>)
    requires
        text::lacks(a, '"'),
        text::lacks(a, '/'),
        text::lacks(comment, '/'),
        text::lacks(b, '"'),
        text::lacks(b, '/'),
    ensures
        without_comments(a + seq!['/', '*'] + comment + seq!['*', '/'] + b) == a + b,
{
    let s = a + seq!['/', '*'] + comment + seq!['*', '/'] + b;
    let n = a.len() as int;
    let k = n + 2 + comment.len();
    assert forall|j: int| 0 <= j < n implies #[trigger] s[j] != '"' && s[j] != '/' by {
        assert(s[j] == a[j]);
    }
    lemma_kept(s, 0, n, Seq::empty());
    assert(Seq::<char>::empty() + s.subrange(0, n) =~= a);
    assert(s[n] == '/' && s[n + 1] == '*');
    reveal_strlit("*/");
    assert(s.subrange(k, k + 2) =~= "*/"@);
    assert(text::occurs_at(s, "*/"@, k));
    text::lemma_find_from(s, "*/"@, n + 2);
    let found = text::find_from(s, "*/"@, n + 2);
    assert(found == Some(k)) by {
        if let Some(x) = found {
            if x < k {
                let mark = s.subrange(x, x + 2);
                assert(mark[1] == s[x + 1]);
                if x + 1 < k {
                    assert(s[x + 1] == comment[x + 1 - n - 2]);
                } else {
                    assert(s[k] == '*');
                }
            }
        }
    }
    let m = s.len() as int;
    assert forall|j: int| k + 2 <= j < m implies #[trigger] s[j] != '"' && s[j] != '/' by {
        assert(s[j] == b[j - k - 2]);
    }
    lemma_kept(s, k + 2, m, a);
    assert(a + s.subrange(k + 2, m) =~= a + b);
}

} // verus!

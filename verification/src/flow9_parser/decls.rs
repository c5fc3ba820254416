//! Declarations and modules.
use vstd::prelude::*;

use super::scan::{
    at_keyword, blanks_end, brace_body_at, byte_offset, char_at, count_bytes, cut, cut_bytes,
    dotted_name_at, expect_char, expected_char, expression_at, extract_brace_body, extract_exp_body,
    failure_within, followed_by, id_at, is_narrow, keyword_at, lemma_runs, looking_at, mapped,
    marks_end, moved, parse_dotted_name, parse_id, parse_path, path_at, peek, peek_literal,
    read_view, skip_marks, skip_ws, string_escapes, string_open, Failure, FailureModel, Read,
};
use super::types::{
    arg_types_at, arrow_at, fun_args_at, parse_argtypes, parse_funargs, parse_optional_return_type,
    parse_type, parse_typenames, type_at, type_names_at,
};
use crate::data::{append_item, list_contains, with_name, Duplicate};
use crate::extractors::flow9_ast::{
    ArgType, ArgTypeModel, Decl, DeclModel, Flow9Module, Flow9ModuleModel, Flow9Type,
    Flow9TypeModel, FunArg, FunArgModel,
};
use crate::text;

verus! {

// ─── Parts of declarations ────────────────────────────────────────────────────

/// Where a statement that ended at `at` is over: behind blanks, an optional semicolon, and
/// blanks.
pub open spec fn statement_end(s: Seq<char>, at: int) -> int {
    let p = blanks_end(s, at);
    if char_at(s, p) == Some(';') {
        blanks_end(s, p + 1)
    } else {
        p
    }
}

fn skip_statement_end(s: &[char], at: usize) -> (r: usize)
    requires
        at <= s@.len(),
    ensures
        r == statement_end(s@, at as int),
        at <= r <= s@.len(),
{
    let p = skip_ws(s, at);
    if peek(s, p) == Some(';') {
        skip_ws(s, p + 1)
    } else {
        p
    }
}

/// A path behind a keyword that ends at `at`, with the semicolon behind it.
pub open spec fn path_statement_at(s: Seq<char>, at: int) -> Read<Seq<char>> {
    match followed_by(path_at(s, at), s, ';') {
        Ok((path, n)) => Ok((path, blanks_end(s, n))),
        Err(e) => Err(e),
    }
}

fn parse_path_statement(s: &[char], at: usize) -> (r: Result<(String, usize), Failure>)
    requires
        at <= s@.len(),
    ensures
        read_view(r) == path_statement_at(s@, at as int),
        moved(r, at as int, s@),
{
    let (path, n) = parse_path(s, at)?;
    let m = expect_char(s, n, ';')?;
    Ok((path, skip_ws(s, m)))
}

/// The declaration of a native function, whose keyword stands at `at`.
pub open spec fn native_at(s: Seq<char>, at: int) -> Read<DeclModel> {
    match followed_by(id_at(s, at + 6), s, ':') {
        Ok((name, n)) => {
            let p = blanks_end(s, n);
            let io = keyword_at(s, p, "io"@);
            let start = if io {
                p + 2
            } else {
                p
            };
            match followed_by(type_at(s, start), s, '=') {
                Ok((type_sig, m)) => match followed_by(dotted_name_at(s, m), s, ';') {
                    Ok((binding, e)) => Ok(
                        ((DeclModel::Native { name, io, type_sig, binding }), blanks_end(s, e)),
                    ),
                    Err(e) => Err(e),
                },
                Err(e) => Err(e),
            }
        },
        Err(e) => Err(e),
    }
}

fn parse_native(s: &[char], at: usize) -> (r: Result<(Decl, usize), Failure>)
    requires
        at + 6 <= s@.len(),
    ensures
        read_view(r) == native_at(s@, at as int),
        moved(r, at as int, s@),
{
    proof {
        reveal_strlit("io");
    }
    let length: usize = s.len();
    let (name, n) = parse_id(s, at + 6)?;
    let n = expect_char(s, n, ':')?;
    let p = skip_ws(s, n);
    let io = at_keyword(s, p, "io");
    let start: usize = if io {
        p + 2
    } else {
        p
    };
    let (type_sig, m) = parse_type(s, start)?;
    let m = expect_char(s, m, '=')?;
    let (binding, e) = parse_dotted_name(s, m)?;
    let e = expect_char(s, e, ';')?;
    Ok((Decl::Native { name, io, type_sig, binding }, skip_ws(s, e)))
}

/// The type parameters of a union, up to the bracket that closes them.
pub open spec fn union_params_from(s: Seq<char>, at: int, done: Seq<Seq<char>>) -> Read<
    Seq<Seq<char>>,
>
    decreases s.len() - at,
{
    let p = blanks_end(s, at);
    if char_at(s, p) == Some('>') {
        Ok((done, p))
    } else {
        let param = if char_at(s, p) == Some('?') {
            Ok((s.subrange(p, marks_end(s, p)), marks_end(s, p)))
        } else {
            id_at(s, p)
        };
        match param {
            Ok((name, n)) => {
                let q = blanks_end(s, n);
                let next = if char_at(s, q) == Some(',') {
                    q + 1
                } else {
                    q
                };
                if at < next <= s.len() {
                    union_params_from(s, next, done.push(name))
                } else {
                    Err(FailureModel::Stuck)
                }
            },
            Err(e) => Err(e),
        }
    }
}

fn parse_union_params(s: &[char], from: usize) -> (r: Result<(Vec<String>, usize), Failure>)
    requires
        from <= s@.len(),
    ensures
        read_view(r) == union_params_from(s@, from as int, Seq::empty()),
        match r {
            Ok((_, n)) => from <= n <= s@.len(),
            Err(e) => failure_within(e, from as int, s@),
        },
{
    let mut params: Vec<String> = Vec::new();
    let mut at: usize = from;
    assert(params.deep_view() =~= Seq::empty());
    loop
        invariant
            from <= at <= s@.len(),
            union_params_from(s@, from as int, Seq::empty()) == union_params_from(
                s@,
                at as int,
                params.deep_view(),
            ),
        decreases s@.len() - at,
    {
        let p = skip_ws(s, at);
        let next = peek(s, p);
        if next == Some('>') {
            return Ok((params, p));
        }
        let (name, n): (String, usize) = if next == Some('?') {
            proof {
                lemma_runs(s@, p + 1);
            }
            let e = skip_marks(s, p);
            (text::piece(s, p, e), e)
        } else {
            parse_id(s, p)?
        };
        append_item(&mut params, name);
        let q = skip_ws(s, n);
        at = if peek(s, q) == Some(',') {
            q + 1
        } else {
            q
        };
    }
}

/// The union that starts at `at`.
pub open spec fn union_at(s: Seq<char>, at: int) -> Read<DeclModel> {
    match id_at(s, at) {
        Ok((name, n)) => {
            let q = blanks_end(s, n);
            let params = if char_at(s, q) == Some('<') {
                match followed_by(union_params_from(s, q + 1, Seq::empty()), s, '>') {
                    Ok((ps, m)) => Ok((ps, blanks_end(s, m))),
                    Err(e) => Err(e),
                }
            } else {
                Ok((Seq::empty(), q))
            };
            match params {
                Ok((type_params, p)) => match looking_at(s, p, "::="@) {
                    Ok(true) => match type_names_at(s, p + 3) {
                        Ok((variants, e)) => Ok(
                            (
                                (DeclModel::Union { name, type_params, variants }),
                                statement_end(s, e),
                            ),
                        ),
                        Err(e) => Err(e),
                    },
                    Ok(false) => Err(
                        FailureModel::Error(
                            "Expected '::=' at position "@ + text::decimal(byte_offset(s, p)),
                            p,
                        ),
                    ),
                    Err(e) => Err(e),
                },
                Err(e) => Err(e),
            }
        },
        Err(e) => Err(e),
    }
}

fn parse_union(s: &[char], at: usize) -> (r: Result<(Decl, usize), Failure>)
    requires
        at <= s@.len(),
    ensures
        read_view(r) == union_at(s@, at as int),
        moved(r, at as int, s@),
{
    proof {
        reveal_strlit("::=");
    }
    let length: usize = s.len();
    let (name, n) = parse_id(s, at)?;
    let q = skip_ws(s, n);
    let (type_params, p): (Vec<String>, usize) = if peek(s, q) == Some('<') {
        let (params, m) = parse_union_params(s, q + 1)?;
        let m = expect_char(s, m, '>')?;
        (params, skip_ws(s, m))
    } else {
        let none: Vec<String> = Vec::new();
        assert(none.deep_view() =~= Seq::empty());
        (none, q)
    };
    let defined = peek_literal(s, p, "::=")?;
    if !defined {
        let mut message = "Expected '::=' at position ".to_owned();
        message.append(text::decimal_string(count_bytes(s, p)).as_str());
        return Err(Failure::Error(message, p));
    }
    let (variants, e) = parse_typenames(s, p + 3)?;
    Ok((Decl::Union { name, type_params, variants }, skip_statement_end(s, e)))
}

/// What follows the head of a function at `at`: a body in braces, nothing but a semicolon,
/// or an expression.
pub open spec fn body_at(s: Seq<char>, at: int) -> Read<Option<Seq<char>>> {
    if char_at(s, at) == Some('{') {
        match brace_body_at(s, at + 1) {
            Ok((body, n)) => Ok((Some(body), statement_end(s, n))),
            Err(e) => Err(e),
        }
    } else if char_at(s, at) == Some(';') {
        Ok((None, blanks_end(s, at + 1)))
    } else {
        let (body, n) = expression_at(s, at);
        Ok((Some(body), blanks_end(s, n)))
    }
}

fn parse_body(s: &[char], at: usize) -> (r: Result<(Option<String>, usize), Failure>)
    requires
        at <= s@.len(),
    ensures
        read_view(r) == body_at(s@, at as int),
        match r {
            Ok((_, n)) => at <= n <= s@.len(),
            Err(e) => failure_within(e, at as int, s@),
        },
{
    let next = peek(s, at);
    if next == Some('{') {
        let (body, n) = extract_brace_body(s, at + 1)?;
        Ok((Some(body), skip_statement_end(s, n)))
    } else if next == Some(';') {
        Ok((None, skip_ws(s, at + 1)))
    } else {
        let (body, n) = extract_exp_body(s, at);
        Ok((Some(body), skip_ws(s, n)))
    }
}

/// The arguments of a function, behind the parenthesis that opens them.
pub open spec fn arguments_at(s: Seq<char>, at: int) -> Read<Seq<FunArgModel>> {
    if char_at(s, at) == Some(')') {
        Ok((Seq::empty(), at))
    } else {
        fun_args_at(s, at)
    }
}

/// The function that starts at `at`.
pub open spec fn function_at(s: Seq<char>, at: int, exported: bool) -> Read<DeclModel> {
    match followed_by(id_at(s, at), s, '(') {
        Ok((name, n)) => match followed_by(arguments_at(s, blanks_end(s, n)), s, ')') {
            Ok((args, m)) => match arrow_at(s, blanks_end(s, m)) {
                Ok((return_type, e)) => mapped(
                    body_at(s, blanks_end(s, e)),
                    |body: Option<Seq<char>>|
                        DeclModel::Function { name, args, return_type, body, exported },
                ),
                Err(e) => Err(e),
            },
            Err(e) => Err(e),
        },
        Err(e) => Err(e),
    }
}

fn parse_function(s: &[char], at: usize, exported: bool) -> (r: Result<(Decl, usize), Failure>)
    requires
        at <= s@.len(),
    ensures
        read_view(r) == function_at(s@, at as int, exported),
        moved(r, at as int, s@),
{
    let (name, n) = parse_id(s, at)?;
    let n = expect_char(s, n, '(')?;
    let p = skip_ws(s, n);
    let (args, m): (Vec<FunArg>, usize) = if peek(s, p) == Some(')') {
        let none: Vec<FunArg> = Vec::new();
        assert(none.deep_view() =~= Seq::empty());
        (none, p)
    } else {
        parse_funargs(s, p)?
    };
    let m = expect_char(s, m, ')')?;
    let q = skip_ws(s, m);
    let (return_type, e) = parse_optional_return_type(s, q)?;
    let r = skip_ws(s, e);
    let (body, last) = parse_body(s, r)?;
    Ok((Decl::Function { name, args, return_type, body, exported }, last))
}

// ─── Type declarations ────────────────────────────────────────────────────────

/// The fields of a struct that was read as argument types: those without a name get an empty
/// one.
pub open spec fn fields_of_types(args: Seq<ArgTypeModel>) -> Seq<FunArgModel> {
    args.map_values(
        |a: ArgTypeModel|
            FunArgModel {
                mutable: false,
                name: match a.name {
                    Some(n) => n,
                    None => Seq::empty(),
                },
                type_annotation: Some(a.type_),
            },
    )
}

/// The argument types of a function that was read as fields: those without a type get the
/// dynamic one.
pub open spec fn types_of_fields(args: Seq<FunArgModel>) -> Seq<ArgTypeModel> {
    args.map_values(
        |a: FunArgModel|
            ArgTypeModel {
                name: Some(a.name),
                type_: match a.type_annotation {
                    Some(t) => t,
                    None => Flow9TypeModel::Flow,
                },
            },
    )
}

/// A function declaration if a return type follows at `at`, and a struct if none does.
pub open spec fn function_or_struct(
    s: Seq<char>,
    at: int,
    name: Seq<char>,
    arg_types: Seq<ArgTypeModel>,
    fields: Seq<FunArgModel>,
    exported: bool,
) -> Read<DeclModel> {
    match arrow_at(s, at) {
        Ok((Some(return_type), n)) => Ok(
            (
                (DeclModel::FunctionDecl { name, arg_types, return_type, exported }),
                statement_end(s, n),
            ),
        ),
        Ok((None, n)) => Ok(
            ((DeclModel::StructDecl { name, fields, exported }), statement_end(s, n)),
        ),
        Err(e) => Err(e),
    }
}

/// A function or struct declaration, read by its fields.
pub open spec fn fields_decl_at(s: Seq<char>, at: int, name: Seq<char>, exported: bool) -> Read<
    DeclModel,
> {
    match followed_by(fun_args_at(s, at), s, ')') {
        Ok((fields, n)) => function_or_struct(
            s,
            blanks_end(s, n),
            name,
            types_of_fields(fields),
            fields,
            exported,
        ),
        Err(e) => Err(e),
    }
}

/// A function or struct declaration, behind the parenthesis that opens its arguments.
pub open spec fn parens_decl_at(s: Seq<char>, at: int, name: Seq<char>, exported: bool) -> Read<
    DeclModel,
> {
    if char_at(s, at) == Some(')') {
        function_or_struct(
            s,
            blanks_end(s, at + 1),
            name,
            Seq::empty(),
            Seq::empty(),
            exported,
        )
    } else {
        match arg_types_at(s, at) {
            Ok((types, n)) => {
                let q = blanks_end(s, n);
                let end = if char_at(s, q) == Some(',') {
                    blanks_end(s, q + 1)
                } else {
                    q
                };
                if char_at(s, end) == Some(')') {
                    function_or_struct(
                        s,
                        blanks_end(s, end + 1),
                        name,
                        types,
                        fields_of_types(types),
                        exported,
                    )
                } else {
                    fields_decl_at(s, at, name, exported)
                }
            },
            Err(FailureModel::Stuck) => Err(FailureModel::Stuck),
            Err(FailureModel::Error(_, _)) => fields_decl_at(s, at, name, exported),
        }
    }
}

/// Whether an equals sign that is no comparison stands at `at`.
pub open spec fn assignment_at(s: Seq<char>, at: int) -> Result<bool, FailureModel> {
    if char_at(s, at) == Some('=') {
        match looking_at(s, at, "=="@) {
            Ok(b) => Ok(!b),
            Err(e) => Err(e),
        }
    } else {
        Ok(false)
    }
}

/// A variable declaration, behind its colon.
pub open spec fn var_decl_at(s: Seq<char>, at: int, name: Seq<char>, exported: bool) -> Read<
    DeclModel,
> {
    match type_at(s, at) {
        Ok((type_annotation, n)) => {
            let q = blanks_end(s, n);
            match assignment_at(s, q) {
                Ok(true) => Ok(
                    (
                        (DeclModel::VarDecl { name, type_annotation, has_init: true, exported }),
                        expression_at(s, blanks_end(s, q + 1)).1,
                    ),
                ),
                Ok(false) => Ok(
                    (
                        (DeclModel::VarDecl { name, type_annotation, has_init: false, exported }),
                        statement_end(s, q),
                    ),
                ),
                Err(e) => Err(e),
            }
        },
        Err(e) => Err(e),
    }
}

/// The declaration of a function, struct or variable by its type.
pub open spec fn type_decl_at(s: Seq<char>, at: int, exported: bool) -> Read<DeclModel> {
    match followed_by(id_at(s, at), s, ':') {
        Ok((name, n)) => {
            let p = blanks_end(s, n);
            if char_at(s, p) == Some('(') {
                parens_decl_at(s, blanks_end(s, p + 1), name, exported)
            } else {
                var_decl_at(s, p, name, exported)
            }
        },
        Err(e) => Err(e),
    }
}

fn make_fields_of_types(args: &Vec<ArgType>) -> (r: Vec<FunArg>)
    ensures
        r.deep_view() == fields_of_types(args.deep_view()),
{
    let mut out: Vec<FunArg> = Vec::new();
    let ghost all = fields_of_types(args.deep_view());
    let mut i: usize = 0;
    while i < args.len()
        invariant
            i <= args@.len(),
            all == fields_of_types(args.deep_view()),
            out@.len() == i,
            forall|j: int| 0 <= j < i ==> (#[trigger] out@[j]).deep_view() == all[j],
        decreases args@.len() - i,
    {
        let name = match &args[i].name {
            Some(n) => n.clone(),
            None => String::new(),
        };
        assert(args.deep_view()[i as int] == args@[i as int].deep_view());
        out.push(
            FunArg { mutable: false, name, type_annotation: Some(args[i].type_.duplicate()) },
        );
        i += 1;
    }
    assert(out.deep_view() =~= all);
    out
}

fn make_types_of_fields(args: &Vec<FunArg>) -> (r: Vec<ArgType>)
    ensures
        r.deep_view() == types_of_fields(args.deep_view()),
{
    let mut out: Vec<ArgType> = Vec::new();
    let ghost all = types_of_fields(args.deep_view());
    let mut i: usize = 0;
    while i < args.len()
        invariant
            i <= args@.len(),
            all == types_of_fields(args.deep_view()),
            out@.len() == i,
            forall|j: int| 0 <= j < i ==> (#[trigger] out@[j]).deep_view() == all[j],
        decreases args@.len() - i,
    {
        let type_ = match &args[i].type_annotation {
            Some(t) => t.duplicate(),
            None => Flow9Type::Flow,
        };
        assert(args.deep_view()[i as int] == args@[i as int].deep_view());
        out.push(ArgType { name: Some(args[i].name.clone()), type_ });
        i += 1;
    }
    assert(out.deep_view() =~= all);
    out
}

fn parse_function_or_struct(
    s: &[char],
    at: usize,
    name: String,
    arg_types: Vec<ArgType>,
    fields: Vec<FunArg>,
    exported: bool,
) -> (r: Result<(Decl, usize), Failure>)
    requires
        at <= s@.len(),
    ensures
        read_view(r) == function_or_struct(
            s@,
            at as int,
            name@,
            arg_types.deep_view(),
            fields.deep_view(),
            exported,
        ),
        match r {
            Ok((_, n)) => at <= n <= s@.len(),
            Err(e) => failure_within(e, at as int, s@),
        },
{
    let (ret, n) = parse_optional_return_type(s, at)?;
    let end = skip_statement_end(s, n);
    match ret {
        Some(return_type) => Ok((Decl::FunctionDecl { name, arg_types, return_type, exported }, end)),
        None => Ok((Decl::StructDecl { name, fields, exported }, end)),
    }
}

fn parse_fields_decl(s: &[char], at: usize, name: String, exported: bool) -> (r: Result<
    (Decl, usize),
    Failure,
>)
    requires
        at <= s@.len(),
    ensures
        read_view(r) == fields_decl_at(s@, at as int, name@, exported),
        moved(r, at as int, s@),
{
    let (fields, n) = parse_funargs(s, at)?;
    let m = expect_char(s, n, ')')?;
    let r = skip_ws(s, m);
    let arg_types = make_types_of_fields(&fields);
    parse_function_or_struct(s, r, name, arg_types, fields, exported)
}

fn parse_parens_decl(s: &[char], at: usize, name: String, exported: bool) -> (r: Result<
    (Decl, usize),
    Failure,
>)
    requires
        at <= s@.len(),
    ensures
        read_view(r) == parens_decl_at(s@, at as int, name@, exported),
        moved(r, at as int, s@),
{
    if peek(s, at) == Some(')') {
        let no_types: Vec<ArgType> = Vec::new();
        let no_fields: Vec<FunArg> = Vec::new();
        assert(no_types.deep_view() =~= Seq::empty());
        assert(no_fields.deep_view() =~= Seq::empty());
        let q = skip_ws(s, at + 1);
        return parse_function_or_struct(s, q, name, no_types, no_fields, exported);
    }
    match parse_argtypes(s, at) {
        Ok((types, n)) => {
            let q = skip_ws(s, n);
            let end: usize = if peek(s, q) == Some(',') {
                skip_ws(s, q + 1)
            } else {
                q
            };
            if peek(s, end) == Some(')') {
                let r = skip_ws(s, end + 1);
                let fields = make_fields_of_types(&types);
                return parse_function_or_struct(s, r, name, types, fields, exported);
            }
        },
        Err(Failure::Stuck) => {
            return Err(Failure::Stuck);
        },
        Err(Failure::Error(_, _)) => {},
    }
    parse_fields_decl(s, at, name, exported)
}

fn at_assignment(s: &[char], at: usize) -> (r: Result<bool, Failure>)
    requires
        at <= s@.len(),
    ensures
        match r {
            Ok(b) => assignment_at(s@, at as int) == Ok::<bool, FailureModel>(b) && (b ==> at
                < s@.len() && at < usize::MAX),
            Err(e) => assignment_at(s@, at as int) == Err::<bool, FailureModel>(e.deep_view())
                && failure_within(e, at as int, s@),
        },
{
    if peek(s, at) == Some('=') {
        let comparison = peek_literal(s, at, "==")?;
        Ok(!comparison)
    } else {
        Ok(false)
    }
}

fn parse_var_decl(s: &[char], at: usize, name: String, exported: bool) -> (r: Result<
    (Decl, usize),
    Failure,
>)
    requires
        at <= s@.len(),
    ensures
        read_view(r) == var_decl_at(s@, at as int, name@, exported),
        moved(r, at as int, s@),
{
    let (type_annotation, n) = parse_type(s, at)?;
    let q = skip_ws(s, n);
    let has_init = at_assignment(s, q)?;
    let end: usize = if has_init {
        let start = skip_ws(s, q + 1);
        extract_exp_body(s, start).1
    } else {
        skip_statement_end(s, q)
    };
    Ok((Decl::VarDecl { name, type_annotation, has_init, exported }, end))
}

fn parse_typedecl(s: &[char], at: usize, exported: bool) -> (r: Result<(Decl, usize), Failure>)
    requires
        at <= s@.len(),
    ensures
        read_view(r) == type_decl_at(s@, at as int, exported),
        moved(r, at as int, s@),
{
    let (name, n) = parse_id(s, at)?;
    let n = expect_char(s, n, ':')?;
    let p = skip_ws(s, n);
    if peek(s, p) == Some('(') {
        let q = skip_ws(s, p + 1);
        parse_parens_decl(s, q, name, exported)
    } else {
        parse_var_decl(s, p, name, exported)
    }
}

// ─── Top level ────────────────────────────────────────────────────────────────

/// Where a list of type parameters that starts at `at` ends.
pub open spec fn type_params_end(s: Seq<char>, at: int) -> int {
    match text::balanced_end(s, at + 1, '<', '>', 1) {
        Some(e) => e,
        None => s.len() as int,
    }
}

/// Whether the definition of a union follows the name that ends at `at`.
pub open spec fn union_follows(s: Seq<char>, at: int) -> Result<bool, FailureModel> {
    match looking_at(s, at, "::="@) {
        Ok(false) => if char_at(s, at) == Some('<') {
            looking_at(s, blanks_end(s, type_params_end(s, at)), "::="@)
        } else {
            Ok(false)
        },
        other => other,
    }
}

/// The error of finding nothing that can follow a name.
pub open spec fn unexpected_after(s: Seq<char>, at: int, id: Seq<char>) -> FailureModel {
    match cut(s, at, 30) {
        Some(e) => FailureModel::Error(
            "Unexpected token at position "@ + text::decimal(byte_offset(s, at))
                + " after identifier '"@ + id + "', found '"@ + s.subrange(at, e) + "'"@,
            at,
        ),
        None => FailureModel::Stuck,
    }
}

/// The declaration that starts at `at` or behind blanks there.
pub open spec fn toplevel_at(s: Seq<char>, at: int, exported: bool) -> Read<DeclModel> {
    let p = blanks_end(s, at);
    if keyword_at(s, p, "native"@) {
        native_at(s, p)
    } else {
        match id_at(s, p) {
            Ok((id, n)) => {
                let q = blanks_end(s, n);
                match union_follows(s, q) {
                    Ok(true) => union_at(s, p),
                    Ok(false) => if char_at(s, q) == Some('(') {
                        function_at(s, p, exported)
                    } else if char_at(s, q) == Some(':') {
                        type_decl_at(s, p, exported)
                    } else if char_at(s, q) == Some('<') {
                        union_at(s, p)
                    } else {
                        match assignment_at(s, q) {
                            Ok(true) => {
                                let (body, e) = expression_at(s, blanks_end(s, q + 1));
                                Ok(
                                    (
                                        (DeclModel::Assign { name: id, body, exported }),
                                        blanks_end(s, e),
                                    ),
                                )
                            },
                            Ok(false) => Err(unexpected_after(s, q, id)),
                            Err(e) => Err(e),
                        }
                    },
                    Err(e) => Err(e),
                }
            },
            Err(e) => Err(e),
        }
    }
}

fn at_union(s: &[char], at: usize) -> (r: Result<bool, Failure>)
    requires
        at <= s@.len(),
    ensures
        match r {
            Ok(b) => union_follows(s@, at as int) == Ok::<bool, FailureModel>(b),
            Err(e) => union_follows(s@, at as int) == Err::<bool, FailureModel>(e.deep_view())
                && e is Stuck && !is_narrow(s@),
        },
{
    let defined = match peek_literal(s, at, "::=") {
        Ok(b) => b,
        Err(_) => {
            return Err(Failure::Stuck);
        },
    };
    if defined {
        return Ok(true);
    }
    if peek(s, at) == Some('<') {
        let end: usize = match text::skip_balanced(s, at + 1, '<', '>') {
            Some(e) => e,
            None => s.len(),
        };
        let p = skip_ws(s, end);
        match peek_literal(s, p, "::=") {
            Ok(b) => Ok(b),
            Err(_) => Err(Failure::Stuck),
        }
    } else {
        Ok(false)
    }
}

fn make_unexpected_after(s: &[char], at: usize, id: &str) -> (r: Failure)
    requires
        at <= s@.len(),
    ensures
        r.deep_view() == unexpected_after(s@, at as int, id@),
        failure_within(r, at as int, s@),
{
    match cut_bytes(s, at, 30) {
        Some(e) => {
            let mut message = "Unexpected token at position ".to_owned();
            message.append(text::decimal_string(count_bytes(s, at)).as_str());
            message.append(" after identifier '");
            message.append(id);
            message.append("', found '");
            message.append(text::piece(s, at, e).as_str());
            message.append("'");
            Failure::Error(message, at)
        },
        None => Failure::Stuck,
    }
}

fn parse_toplevel_decl(s: &[char], at: usize, exported: bool) -> (r: Result<(Decl, usize), Failure>)
    requires
        at <= s@.len(),
    ensures
        read_view(r) == toplevel_at(s@, at as int, exported),
        moved(r, at as int, s@),
{
    proof {
        reveal_strlit("native");
    }
    let p = skip_ws(s, at);
    if at_keyword(s, p, "native") {
        return parse_native(s, p);
    }
    let (id, n) = parse_id(s, p)?;
    let q = skip_ws(s, n);
    let union = at_union(s, q)?;
    if union {
        return parse_union(s, p);
    }
    let next = peek(s, q);
    if next == Some('(') {
        return parse_function(s, p, exported);
    }
    if next == Some(':') {
        return parse_typedecl(s, p, exported);
    }
    if next == Some('<') {
        return parse_union(s, p);
    }
    let assigned = at_assignment(s, q)?;
    if assigned {
        let start = skip_ws(s, q + 1);
        let (body, e) = extract_exp_body(s, start);
        return Ok((Decl::Assign { name: id, body, exported }, skip_ws(s, e)));
    }
    Err(make_unexpected_after(s, q, id.as_str()))
}

/// Where reading goes on behind a declaration that cannot be read: behind the next brace
/// that closes all that were opened, or the next semicolon outside braces.
pub open spec fn recovery_from(s: Seq<char>, i: int, depth: nat, quoted: bool, escaped: bool) -> int
    decreases s.len() - i,
{
    if i < 0 || i >= s.len() {
        i
    } else {
        let c = s[i];
        let open = string_open(quoted, c, escaped);
        let next = string_escapes(quoted, c, escaped);
        if quoted || c == '"' {
            recovery_from(s, i + 1, depth, open, next)
        } else if c == '{' {
            recovery_from(s, i + 1, depth + 1, open, next)
        } else if c == '}' {
            if depth <= 1 {
                statement_end(s, i + 1)
            } else {
                recovery_from(s, i + 1, (depth - 1) as nat, open, next)
            }
        } else if c == ';' && depth == 0 {
            blanks_end(s, i + 1)
        } else {
            recovery_from(s, i + 1, depth, open, next)
        }
    }
}

pub open spec fn recovery(s: Seq<char>, at: int) -> int {
    recovery_from(s, at, 0, false, false)
}

fn skip_to_next_toplevel(s: &[char], at: usize) -> (r: usize)
    requires
        at < s@.len(),
    ensures
        r == recovery(s@, at as int),
        at < r <= s@.len(),
{
    let mut i: usize = at;
    let mut depth: u128 = 0;
    let mut quoted: bool = false;
    let mut escaped: bool = false;
    while i < s.len()
        invariant
            at <= i <= s@.len(),
            at < s@.len(),
            depth <= i - at,
            recovery(s@, at as int) == recovery_from(s@, i as int, depth as nat, quoted, escaped),
        decreases s@.len() - i,
    {
        let c = s[i];
        let escapes: bool = quoted && !escaped && c == '\\';
        if quoted {
            if c == '"' && !escaped {
                quoted = false;
            }
        } else if c == '"' {
            quoted = true;
        } else if c == '{' {
            depth += 1;
        } else if c == '}' {
            if depth <= 1 {
                return skip_statement_end(s, i + 1);
            }
            depth -= 1;
        } else if c == ';' && depth == 0 {
            return skip_ws(s, i + 1);
        }
        escaped = escapes;
        i += 1;
    }
    i
}

/// Where reading goes on behind a declaration in a block that cannot be read: at the brace
/// that closes the block, or behind the next semicolon outside braces.
pub open spec fn recovery_in_block_from(
    s: Seq<char>,
    i: int,
    depth: nat,
    quoted: bool,
    escaped: bool,
) -> int
    decreases s.len() - i,
{
    if i < 0 || i >= s.len() {
        i
    } else {
        let c = s[i];
        let open = string_open(quoted, c, escaped);
        let next = string_escapes(quoted, c, escaped);
        if quoted || c == '"' {
            recovery_in_block_from(s, i + 1, depth, open, next)
        } else if c == '{' {
            recovery_in_block_from(s, i + 1, depth + 1, open, next)
        } else if c == '}' {
            if depth == 0 {
                i
            } else {
                recovery_in_block_from(s, i + 1, (depth - 1) as nat, open, next)
            }
        } else if c == ';' && depth == 0 {
            blanks_end(s, i + 1)
        } else {
            recovery_in_block_from(s, i + 1, depth, open, next)
        }
    }
}

pub open spec fn recovery_in_block(s: Seq<char>, at: int) -> int {
    recovery_in_block_from(s, at, 0, false, false)
}

fn skip_to_next_toplevel_or_close_brace(s: &[char], at: usize) -> (r: usize)
    requires
        at <= s@.len(),
    ensures
        r == recovery_in_block(s@, at as int),
        at <= r <= s@.len(),
{
    let mut i: usize = at;
    let mut depth: u128 = 0;
    let mut quoted: bool = false;
    let mut escaped: bool = false;
    while i < s.len()
        invariant
            at <= i <= s@.len(),
            depth <= i - at,
            recovery_in_block(s@, at as int) == recovery_in_block_from(
                s@,
                i as int,
                depth as nat,
                quoted,
                escaped,
            ),
        decreases s@.len() - i,
    {
        let c = s[i];
        let escapes: bool = quoted && !escaped && c == '\\';
        if quoted {
            if c == '"' && !escaped {
                quoted = false;
            }
        } else if c == '"' {
            quoted = true;
        } else if c == '{' {
            depth += 1;
        } else if c == '}' {
            if depth == 0 {
                return i;
            }
            depth -= 1;
        } else if c == ';' && depth == 0 {
            return skip_ws(s, i + 1);
        }
        escaped = escapes;
        i += 1;
    }
    i
}

/// The declarations of an export block from `at` on. One that cannot be read is skipped.
pub open spec fn exports_from(s: Seq<char>, at: int, done: Seq<DeclModel>) -> Read<Seq<DeclModel>>
    decreases s.len() - at,
{
    if at >= s.len() || char_at(s, at) == Some('}') {
        Ok((done, at))
    } else {
        match toplevel_at(s, at, true) {
            Ok((d, n)) => {
                let q = blanks_end(s, n);
                if at < q <= s.len() {
                    exports_from(s, q, done.push(d))
                } else {
                    Err(FailureModel::Stuck)
                }
            },
            Err(FailureModel::Stuck) => Err(FailureModel::Stuck),
            Err(FailureModel::Error(_, p)) => {
                let r = recovery_in_block(s, p);
                let q = blanks_end(s, r);
                if r <= p {
                    Ok((done, p))
                } else if at < q <= s.len() {
                    exports_from(s, q, done)
                } else {
                    Err(FailureModel::Stuck)
                }
            },
        }
    }
}

/// The declarations of an export block whose keyword ends at `at`.
pub open spec fn export_block_at(s: Seq<char>, at: int) -> Read<Seq<DeclModel>> {
    match expected_char(s, at, '{') {
        Ok(p) => match followed_by(exports_from(s, blanks_end(s, p), Seq::empty()), s, '}') {
            Ok((decls, n)) => Ok((decls, blanks_end(s, n))),
            Err(e) => Err(e),
        },
        Err(e) => Err(e),
    }
}

fn parse_exports(s: &[char], from: usize) -> (r: Result<(Vec<Decl>, usize), Failure>)
    requires
        from <= s@.len(),
    ensures
        read_view(r) == exports_from(s@, from as int, Seq::empty()),
        match r {
            Ok((_, n)) => from <= n <= s@.len(),
            Err(e) => failure_within(e, from as int, s@),
        },
{
    let mut decls: Vec<Decl> = Vec::new();
    let mut at: usize = from;
    assert(decls.deep_view() =~= Seq::empty());
    loop
        invariant
            from <= at <= s@.len(),
            exports_from(s@, from as int, Seq::empty()) == exports_from(
                s@,
                at as int,
                decls.deep_view(),
            ),
        decreases s@.len() - at,
    {
        if at >= s.len() || s[at] == '}' {
            return Ok((decls, at));
        }
        match parse_toplevel_decl(s, at, true) {
            Ok((d, n)) => {
                append_item(&mut decls, d);
                at = skip_ws(s, n);
            },
            Err(Failure::Stuck) => {
                return Err(Failure::Stuck);
            },
            Err(Failure::Error(_, p)) => {
                let r = skip_to_next_toplevel_or_close_brace(s, p);
                if r <= p {
                    return Ok((decls, p));
                }
                at = skip_ws(s, r);
            },
        }
    }
}

fn parse_export(s: &[char], at: usize) -> (r: Result<(Vec<Decl>, usize), Failure>)
    requires
        at <= s@.len(),
    ensures
        read_view(r) == export_block_at(s@, at as int),
        moved(r, at as int, s@),
{
    let p = expect_char(s, at, '{')?;
    let q = skip_ws(s, p);
    let (decls, n) = parse_exports(s, q)?;
    let m = expect_char(s, n, '}')?;
    Ok((decls, skip_ws(s, m)))
}

// ─── Modules ──────────────────────────────────────────────────────────────────

/// The name that a declaration declares.
pub open spec fn declared_name(d: DeclModel) -> Option<Seq<char>> {
    match d {
        DeclModel::Import(_) => None,
        DeclModel::Forbid(_) => None,
        DeclModel::Native { name, .. } => Some(name),
        DeclModel::Union { name, .. } => Some(name),
        DeclModel::Function { name, .. } => Some(name),
        DeclModel::FunctionDecl { name, .. } => Some(name),
        DeclModel::StructDecl { name, .. } => Some(name),
        DeclModel::VarDecl { name, .. } => Some(name),
        DeclModel::Assign { name, .. } => Some(name),
    }
}

/// The module with an exported declaration.
pub open spec fn with_export(m: Flow9ModuleModel, d: DeclModel) -> Flow9ModuleModel {
    Flow9ModuleModel {
        exports: match declared_name(d) {
            Some(name) => with_name(m.exports, name),
            None => m.exports,
        },
        declarations: m.declarations.push(d),
        ..m
    }
}

/// The module with the exported declarations.
pub open spec fn with_exports(m: Flow9ModuleModel, decls: Seq<DeclModel>) -> Flow9ModuleModel
    decreases decls.len(),
{
    if decls.len() == 0 {
        m
    } else {
        with_export(with_exports(m, decls.drop_last()), decls.last())
    }
}

pub open spec fn with_import(m: Flow9ModuleModel, path: Seq<char>) -> Flow9ModuleModel {
    Flow9ModuleModel {
        imports: m.imports.push(path),
        declarations: m.declarations.push(DeclModel::Import(path)),
        ..m
    }
}

pub open spec fn with_forbid(m: Flow9ModuleModel, path: Seq<char>) -> Flow9ModuleModel {
    Flow9ModuleModel {
        forbids: m.forbids.push(path),
        declarations: m.declarations.push(DeclModel::Forbid(path)),
        ..m
    }
}

/// The module with the imports, exports and forbidden imports that come first, from `at` on.
pub open spec fn header_from(s: Seq<char>, at: int, m: Flow9ModuleModel) -> Read<Flow9ModuleModel>
    decreases s.len() - at,
{
    let p = blanks_end(s, at);
    if p >= s.len() {
        Ok((m, p))
    } else if keyword_at(s, p, "import"@) {
        match path_statement_at(s, p + 6) {
            Ok((path, n)) => if at < n <= s.len() {
                header_from(s, n, with_import(m, path))
            } else {
                Err(FailureModel::Stuck)
            },
            Err(e) => Err(e),
        }
    } else if keyword_at(s, p, "require"@) {
        match path_statement_at(s, p + 7) {
            Ok((path, n)) => if at < n <= s.len() {
                header_from(s, n, m)
            } else {
                Err(FailureModel::Stuck)
            },
            Err(e) => Err(e),
        }
    } else if keyword_at(s, p, "export"@) {
        match export_block_at(s, p + 6) {
            Ok((decls, n)) => if at < n <= s.len() {
                header_from(s, n, with_exports(m, decls))
            } else {
                Err(FailureModel::Stuck)
            },
            Err(e) => Err(e),
        }
    } else if keyword_at(s, p, "forbid"@) {
        match path_statement_at(s, p + 6) {
            Ok((path, n)) => if at < n <= s.len() {
                header_from(s, n, with_forbid(m, path))
            } else {
                Err(FailureModel::Stuck)
            },
            Err(e) => Err(e),
        }
    } else {
        Ok((m, p))
    }
}

/// The declarations from `at` on, behind those that are done. One that cannot be read is
/// skipped.
pub open spec fn declarations_from(s: Seq<char>, at: int, done: Seq<DeclModel>) -> Result<
    Seq<DeclModel>,
    FailureModel,
>
    decreases s.len() - at,
{
    let p = blanks_end(s, at);
    if p >= s.len() {
        Ok(done)
    } else {
        match toplevel_at(s, p, false) {
            Ok((d, n)) => if at < n <= s.len() {
                declarations_from(s, n, done.push(d))
            } else {
                Err(FailureModel::Stuck)
            },
            Err(FailureModel::Stuck) => Err(FailureModel::Stuck),
            Err(FailureModel::Error(_, e)) => if e >= s.len() {
                Ok(done)
            } else if at < recovery(s, e) <= s.len() {
                declarations_from(s, recovery(s, e), done)
            } else {
                Err(FailureModel::Stuck)
            },
        }
    }
}

pub open spec fn empty_module() -> Flow9ModuleModel {
    Flow9ModuleModel {
        imports: Seq::empty(),
        forbids: Seq::empty(),
        exports: Seq::empty(),
        declarations: Seq::empty(),
    }
}

/// The module that a source text stands for. A byte order mark before it is skipped.
#[verifier::opaque]
pub open spec fn module_of(s: Seq<char>) -> Result<Flow9ModuleModel, FailureModel> {
    let start: int = if char_at(s, 0) == Some('\u{FEFF}') {
        1
    } else {
        0
    };
    match header_from(s, start, empty_module()) {
        Ok((m, n)) => match declarations_from(s, n, m.declarations) {
            Ok(declarations) => Ok(Flow9ModuleModel { declarations, ..m }),
            Err(e) => Err(e),
        },
        Err(e) => Err(e),
    }
}

fn get_declared_name(d: &Decl) -> (r: Option<&String>)
    ensures
        r.deep_view() == declared_name(d.deep_view()),
{
    match d {
        Decl::Import(_) => None,
        Decl::Forbid(_) => None,
        Decl::Native { name, .. } => Some(name),
        Decl::Union { name, .. } => Some(name),
        Decl::Function { name, .. } => Some(name),
        Decl::FunctionDecl { name, .. } => Some(name),
        Decl::StructDecl { name, .. } => Some(name),
        Decl::VarDecl { name, .. } => Some(name),
        Decl::Assign { name, .. } => Some(name),
    }
}

fn add_exports(module: &mut Flow9Module, decls: Vec<Decl>)
    ensures
        final(module).deep_view() == with_exports(old(module).deep_view(), decls.deep_view()),
{
    let ghost before = module.deep_view();
    let ghost models = decls.deep_view();
    assert(models.take(0).len() == 0);
    let mut i: usize = 0;
    while i < decls.len()
        invariant
            i <= decls@.len(),
            models == decls.deep_view(),
            module.deep_view() == with_exports(before, models.take(i as int)),
        decreases decls@.len() - i,
    {
        let d = &decls[i];
        proof {
            assert(models[i as int] == decls@[i as int].deep_view());
            assert(models.take(i + 1).drop_last() =~= models.take(i as int));
            assert(models.take(i + 1).last() == models[i as int]);
        }
        if let Some(name) = get_declared_name(d) {
            if !list_contains(module.exports.as_slice(), name) {
                append_item(&mut module.exports, name.clone());
            }
        }
        append_item(&mut module.declarations, d.duplicate());
        i += 1;
    }
    assert(models.take(decls@.len() as int) =~= models);
}

fn parse_header(s: &[char], from: usize) -> (r: Result<(Flow9Module, usize), Failure>)
    requires
        from <= s@.len(),
    ensures
        read_view(r) == header_from(s@, from as int, empty_module()),
        match r {
            Ok((_, n)) => from <= n <= s@.len(),
            Err(e) => failure_within(e, from as int, s@),
        },
{
    proof {
        reveal_strlit("import");
        reveal_strlit("require");
        reveal_strlit("export");
        reveal_strlit("forbid");
    }
    let length: usize = s.len();
    let mut module = Flow9Module {
        imports: Vec::new(),
        forbids: Vec::new(),
        exports: Vec::new(),
        declarations: Vec::new(),
    };
    assert(module.deep_view() =~= empty_module());
    let mut at: usize = from;
    loop
        invariant
            from <= at <= s@.len(),
            length == s@.len(),
            "import"@.len() == 6,
            "require"@.len() == 7,
            "export"@.len() == 6,
            "forbid"@.len() == 6,
            header_from(s@, from as int, empty_module()) == header_from(
                s@,
                at as int,
                module.deep_view(),
            ),
        decreases s@.len() - at,
    {
        let p = skip_ws(s, at);
        if p >= length {
            return Ok((module, p));
        }
        if at_keyword(s, p, "import") {
            let (path, n) = parse_path_statement(s, p + 6)?;
            append_item(&mut module.imports, path.clone());
            append_item(&mut module.declarations, Decl::Import(path));
            at = n;
        } else if at_keyword(s, p, "require") {
            let (_, n) = parse_path_statement(s, p + 7)?;
            at = n;
        } else if at_keyword(s, p, "export") {
            let (decls, n) = parse_export(s, p + 6)?;
            add_exports(&mut module, decls);
            at = n;
        } else if at_keyword(s, p, "forbid") {
            let (path, n) = parse_path_statement(s, p + 6)?;
            append_item(&mut module.forbids, path.clone());
            append_item(&mut module.declarations, Decl::Forbid(path));
            at = n;
        } else {
            return Ok((module, p));
        }
    }
}

fn parse_declarations(s: &[char], from: usize, done: Vec<Decl>) -> (r: Result<Vec<Decl>, Failure>)
    requires
        from <= s@.len(),
    ensures
        match r {
            Ok(decls) => declarations_from(s@, from as int, done.deep_view()) == Ok::<
                Seq<DeclModel>,
                FailureModel,
            >(decls.deep_view()),
            Err(e) => declarations_from(s@, from as int, done.deep_view()) == Err::<
                Seq<DeclModel>,
                FailureModel,
            >(e.deep_view()) && (e is Stuck ==> !is_narrow(s@)),
        },
{
    let mut decls = done;
    let mut at: usize = from;
    loop
        invariant
            from <= at <= s@.len(),
            declarations_from(s@, from as int, done.deep_view()) == declarations_from(
                s@,
                at as int,
                decls.deep_view(),
            ),
        decreases s@.len() - at,
    {
        let p = skip_ws(s, at);
        if p >= s.len() {
            return Ok(decls);
        }
        match parse_toplevel_decl(s, p, false) {
            Ok((d, n)) => {
                append_item(&mut decls, d);
                at = n;
            },
            Err(Failure::Stuck) => {
                return Err(Failure::Stuck);
            },
            Err(Failure::Error(_, e)) => {
                if e >= s.len() {
                    return Ok(decls);
                }
                at = skip_to_next_toplevel(s, e);
            },
        }
    }
}

/// Reads a module.
pub fn parse_module(s: &[char]) -> (r: Result<Flow9Module, Failure>)
    ensures
        match r {
            Ok(m) => module_of(s@) == Ok::<Flow9ModuleModel, FailureModel>(m.deep_view()),
            Err(e) => module_of(s@) == Err::<Flow9ModuleModel, FailureModel>(e.deep_view()) && (
            e is Stuck ==> !is_narrow(s@)),
        },
{
    proof {
        reveal(module_of);
    }
    let start: usize = if peek(s, 0) == Some('\u{FEFF}') {
        1
    } else {
        0
    };
    let (module, n) = parse_header(s, start)?;
    let Flow9Module { imports, forbids, exports, declarations } = module;
    let declarations = parse_declarations(s, n, declarations)?;
    Ok(Flow9Module { imports, forbids, exports, declarations })
}

} // verus!

//! Flow9 declarations that are read as they are written.
use vstd::prelude::*;

use super::decls::{
    arguments_at, body_at, fields_of_types, function_or_struct, header_from, native_at,
    parens_decl_at, path_statement_at, toplevel_at, union_at, union_follows, var_decl_at,
    with_export, with_forbid, with_import,
};
use super::scan::{
    blanks_end, char_at, closing_brace, expected_char, followed_by, id_at, is_blank,
    is_id_continue, keyword_at, lemma_runs, FailureModel,
};
use super::types::{
    arg_type_at, arg_types_at, arg_types_rest, arrow_at, fun_arg_at, fun_args_at, fun_args_rest,
    name_and_colon, type_at, type_name_at, type_names_at, type_names_rest,
};
use super::written::{
    closes, is_id, is_read, is_writable, lemma_arrow, lemma_chars, lemma_cut_some,
    lemma_not_keyword, lemma_parts_occur, lemma_read, lemma_read_id, lemma_start,
};
use crate::extractors::flow9::flow9_text;
use crate::extractors::flow9_ast::{
    ArgTypeModel, DeclModel, Flow9ModuleModel, Flow9TypeModel, FunArgModel, TypeNameModel,
};
use crate::text;

verus! {

// ─── Texts ────────────────────────────────────────────────────────────────────

/// How a name and its type are written.
pub open spec fn typed_text(name: Seq<char>, t: Flow9TypeModel) -> Seq<char> {
    name + seq![':'] + flow9_text(t)
}

/// How the names and types from the `k`-th on are written, each behind a comma.
pub open spec fn more_text(fields: Seq<(Seq<char>, Flow9TypeModel)>, k: int) -> Seq<char>
    decreases fields.len() - k,
{
    if 0 <= k < fields.len() {
        seq![','] + typed_text(fields[k].0, fields[k].1) + more_text(fields, k + 1)
    } else {
        Seq::empty()
    }
}

/// How names and types are written in parentheses.
pub open spec fn fields_text(fields: Seq<(Seq<char>, Flow9TypeModel)>) -> Seq<char> {
    seq!['('] + (if fields.len() == 0 {
        Seq::empty()
    } else {
        typed_text(fields[0].0, fields[0].1) + more_text(fields, 1)
    }) + seq![')']
}

/// Whether names and types can be written.
pub open spec fn are_fields(fields: Seq<(Seq<char>, Flow9TypeModel)>) -> bool {
    forall|i: int|
        #![trigger fields[i]]
        0 <= i < fields.len() ==> is_id(fields[i].0) && fields[i].0 != "mutable"@ && is_writable(
            fields[i].1,
        )
}

/// Names and types, as the arguments of a function that is declared.
pub open spec fn as_arg_types(fields: Seq<(Seq<char>, Flow9TypeModel)>) -> Seq<ArgTypeModel> {
    fields.map_values(
        |f: (Seq<char>, Flow9TypeModel)| ArgTypeModel { name: Some(f.0), type_: f.1 },
    )
}

/// Names and types, as the fields of a struct, or the arguments of a function.
pub open spec fn as_fields(fields: Seq<(Seq<char>, Flow9TypeModel)>) -> Seq<FunArgModel> {
    fields.map_values(
        |f: (Seq<char>, Flow9TypeModel)|
            FunArgModel { mutable: false, name: f.0, type_annotation: Some(f.1) },
    )
}

proof fn lemma_char(s: Seq<char>, c: char, p: int)
    requires
        text::occurs_at(s, seq![c], p),
    ensures
        0 <= p < s.len(),
        s[p] == c,
        char_at(s, p) == Some(c),
        !is_blank(c) ==> blanks_end(s, p) == p && expected_char(s, p, c) == Ok::<int, FailureModel>(
            p + 1,
        ),
{
    lemma_chars(s, seq![c], p);
    assert(s[p + 0] == seq![c][0]);
}

// ─── Arguments ────────────────────────────────────────────────────────────────

/// Whether an argument's type is read at a position, up to another.
#[verifier::opaque]
spec fn is_arg_type_read(s: Seq<char>, p: int, a: ArgTypeModel, e: int) -> bool {
    arg_type_at(s, p) == Ok::<(ArgTypeModel, int), FailureModel>((a, e))
}

/// Whether an argument is read.
#[verifier::opaque]
spec fn is_fun_arg_read(s: Seq<char>, p: int, a: FunArgModel, e: int) -> bool {
    fun_arg_at(s, p) == Ok::<(FunArgModel, int), FailureModel>((a, e))
}

/// Whether more types of arguments are read, behind those that are done.
#[verifier::opaque]
spec fn are_more_types_read(
    s: Seq<char>,
    p: int,
    done: Seq<ArgTypeModel>,
    all: Seq<ArgTypeModel>,
    e: int,
) -> bool {
    arg_types_rest(s, p, done) == Ok::<(Seq<ArgTypeModel>, int), FailureModel>((all, e))
}

/// Whether more arguments are read, behind those that are done.
#[verifier::opaque]
spec fn are_more_args_read(
    s: Seq<char>,
    p: int,
    done: Seq<FunArgModel>,
    all: Seq<FunArgModel>,
    e: int,
) -> bool {
    fun_args_rest(s, p, done) == Ok::<(Seq<FunArgModel>, int), FailureModel>((all, e))
}

/// Whether the types of arguments are read.
#[verifier::opaque]
spec fn are_types_read(s: Seq<char>, p: int, all: Seq<ArgTypeModel>, e: int) -> bool {
    arg_types_at(s, p) == Ok::<(Seq<ArgTypeModel>, int), FailureModel>((all, e))
}

/// Whether arguments are read.
#[verifier::opaque]
spec fn are_args_read(s: Seq<char>, p: int, all: Seq<FunArgModel>, e: int) -> bool {
    fun_args_at(s, p) == Ok::<(Seq<FunArgModel>, int), FailureModel>((all, e))
}

/// Whether the type behind an arrow is read, or that there is none.
#[verifier::opaque]
spec fn is_arrow_read(s: Seq<char>, p: int, t: Option<Flow9TypeModel>, e: int) -> bool {
    arrow_at(s, p) == Ok::<(Option<Flow9TypeModel>, int), FailureModel>((t, e))
}

/// Whether a statement of a path is read.
#[verifier::opaque]
spec fn is_path_read(s: Seq<char>, p: int, path: Seq<char>, e: int) -> bool {
    path_statement_at(s, p) == Ok::<(Seq<char>, int), FailureModel>((path, e))
}

proof fn lemma_types_step(
    s: Seq<char>,
    p: int,
    a: ArgTypeModel,
    q: int,
    done: Seq<ArgTypeModel>,
    all: Seq<ArgTypeModel>,
    e: int,
)
    requires
        char_at(s, p) == Some(','),
        blanks_end(s, p) == p,
        blanks_end(s, p + 1) == p + 1,
        char_at(s, p + 1) != Some(')'),
        is_arg_type_read(s, p + 1, a, q),
        p < q <= s.len(),
        are_more_types_read(s, q, done.push(a), all, e),
    ensures
        are_more_types_read(s, p, done, all, e),
{
    reveal(is_arg_type_read);
    reveal(are_more_types_read);
}

proof fn lemma_args_step(
    s: Seq<char>,
    p: int,
    a: FunArgModel,
    q: int,
    done: Seq<FunArgModel>,
    all: Seq<FunArgModel>,
    e: int,
)
    requires
        char_at(s, p) == Some(','),
        blanks_end(s, p) == p,
        blanks_end(s, p + 1) == p + 1,
        char_at(s, p + 1) != Some(')'),
        is_fun_arg_read(s, p + 1, a, q),
        p < q <= s.len(),
        are_more_args_read(s, q, done.push(a), all, e),
    ensures
        are_more_args_read(s, p, done, all, e),
{
    reveal(is_fun_arg_read);
    reveal(are_more_args_read);
}

proof fn lemma_rest_end(s: Seq<char>, p: int, types: Seq<ArgTypeModel>, args: Seq<FunArgModel>)
    requires
        char_at(s, p) == Some(')'),
        blanks_end(s, p) == p,
    ensures
        are_more_types_read(s, p, types, types, p),
        are_more_args_read(s, p, args, args, p),
{
    reveal(are_more_types_read);
    reveal(are_more_args_read);
}

proof fn lemma_first_step(
    s: Seq<char>,
    p: int,
    a: ArgTypeModel,
    b: FunArgModel,
    q: int,
    types: Seq<ArgTypeModel>,
    args: Seq<FunArgModel>,
    e: int,
)
    requires
        is_arg_type_read(s, p, a, q),
        is_fun_arg_read(s, p, b, q),
        are_more_types_read(s, q, seq![a], types, e),
        are_more_args_read(s, q, seq![b], args, e),
    ensures
        are_types_read(s, p, types, e),
        are_args_read(s, p, args, e),
{
    reveal(is_arg_type_read);
    reveal(is_fun_arg_read);
    reveal(are_more_types_read);
    reveal(are_more_args_read);
    reveal(are_types_read);
    reveal(are_args_read);
}

/// A name and its type are read as they are written, up to a comma or a parenthesis.
proof fn lemma_typed(s: Seq<char>, p: int, name: Seq<char>, t: Flow9TypeModel)
    requires
        text::is_ascii(s),
        is_id(name),
        name != "mutable"@,
        is_writable(t),
        text::occurs_at(s, typed_text(name, t), p),
        closes(s, p + typed_text(name, t).len()),
    ensures
        is_arg_type_read(
            s,
            p,
            ArgTypeModel { name: Some(name), type_: t },
            p + typed_text(name, t).len(),
        ),
        is_fun_arg_read(
            s,
            p,
            FunArgModel { mutable: false, name, type_annotation: Some(t) },
            p + typed_text(name, t).len(),
        ),
        blanks_end(s, p) == p,
        s[p] == name[0],
{
    let x = flow9_text(t);
    assert(typed_text(name, t) =~= name + (seq![':'] + x));
    lemma_parts_occur(s, name, seq![':'] + x, p);
    let n = p + name.len();
    lemma_parts_occur(s, seq![':'], x, n);
    lemma_char(s, ':', n);
    lemma_read_id(s, p, name);
    lemma_read(t, s, n + 1);
    reveal(is_read);
    reveal(is_arg_type_read);
    reveal(is_fun_arg_read);
    reveal_strlit("mutable");
    assert forall|i: int| 0 <= i < "mutable"@.len() implies is_id_continue(
        #[trigger] "mutable"@[i],
    ) by {}
    lemma_not_keyword(s, p, name, "mutable"@);
    assert(name_and_colon(s, p) == Ok::<(Option<Seq<char>>, int), FailureModel>(
        (Some(name), n + 1),
    ));
}

proof fn lemma_more(
    s: Seq<char>,
    p: int,
    fields: Seq<(Seq<char>, Flow9TypeModel)>,
    k: int,
    types: Seq<ArgTypeModel>,
    args: Seq<FunArgModel>,
)
    requires
        text::is_ascii(s),
        are_fields(fields),
        0 <= k <= fields.len(),
        text::occurs_at(s, more_text(fields, k) + seq![')'], p),
    ensures
        are_more_types_read(
            s,
            p,
            types,
            types + as_arg_types(fields).skip(k),
            p + more_text(fields, k).len(),
        ),
        are_more_args_read(
            s,
            p,
            args,
            args + as_fields(fields).skip(k),
            p + more_text(fields, k).len(),
        ),
        0 <= p < s.len(),
        s[p] == ',' || s[p] == ')',
        char_at(s, p + more_text(fields, k).len()) == Some(')'),
    decreases fields.len() - k,
{
    let x = more_text(fields, k);
    lemma_parts_occur(s, x, seq![')'], p);
    lemma_char(s, ')', p + x.len());
    if k < fields.len() {
        let (name, t) = fields[k];
        let y = typed_text(name, t);
        let rest = more_text(fields, k + 1);
        assert(x + seq![')'] =~= seq![','] + (y + (rest + seq![')'])));
        lemma_parts_occur(s, seq![','], y + (rest + seq![')']), p);
        lemma_char(s, ',', p);
        lemma_parts_occur(s, y, rest + seq![')'], p + 1);
        let q = p + 1 + y.len();
        let a = ArgTypeModel { name: Some(name), type_: t };
        let b = FunArgModel { mutable: false, name, type_annotation: Some(t) };
        lemma_more(s, q, fields, k + 1, types.push(a), args.push(b));
        lemma_typed(s, p + 1, name, t);
        assert(types.push(a) + as_arg_types(fields).skip(k + 1) =~= types + as_arg_types(
            fields,
        ).skip(k));
        assert(args.push(b) + as_fields(fields).skip(k + 1) =~= args + as_fields(fields).skip(k));
        let e = q + rest.len();
        lemma_types_step(s, p, a, q, types, types + as_arg_types(fields).skip(k), e);
        lemma_args_step(s, p, b, q, args, args + as_fields(fields).skip(k), e);
    } else {
        assert(types + as_arg_types(fields).skip(k) =~= types);
        assert(args + as_fields(fields).skip(k) =~= args);
        lemma_rest_end(s, p, types, args);
    }
}

/// Names and types in parentheses are read as they are written.
proof fn lemma_fields(s: Seq<char>, p: int, fields: Seq<(Seq<char>, Flow9TypeModel)>)
    requires
        text::is_ascii(s),
        are_fields(fields),
        text::occurs_at(s, fields_text(fields), p),
    ensures
        ({
            let e = p + fields_text(fields).len();
            &&& char_at(s, p) == Some('(')
            &&& blanks_end(s, p) == p
            &&& expected_char(s, p, '(') == Ok::<int, FailureModel>(p + 1)
            &&& blanks_end(s, p + 1) == p + 1
            &&& fields.len() == 0 ==> char_at(s, p + 1) == Some(')') && e == p + 2
            &&& fields.len() > 0 ==> {
                &&& char_at(s, p + 1) != Some(')')
                &&& are_types_read(s, p + 1, as_arg_types(fields), e - 1)
                &&& are_args_read(s, p + 1, as_fields(fields), e - 1)
            }
            &&& char_at(s, e - 1) == Some(')')
            &&& blanks_end(s, e - 1) == e - 1
            &&& p + 2 <= e <= s.len()
        }),
{
    let all = fields_text(fields);
    if fields.len() == 0 {
        assert(all =~= seq!['('] + seq![')']);
        lemma_parts_occur(s, seq!['('], seq![')'], p);
        lemma_char(s, '(', p);
        lemma_char(s, ')', p + 1);
    } else {
        let (name, t) = fields[0];
        let y = typed_text(name, t);
        let rest = more_text(fields, 1);
        assert(all =~= seq!['('] + (y + (rest + seq![')'])));
        lemma_parts_occur(s, seq!['('], y + (rest + seq![')']), p);
        lemma_char(s, '(', p);
        lemma_parts_occur(s, y, rest + seq![')'], p + 1);
        let q = p + 1 + y.len();
        let a = ArgTypeModel { name: Some(name), type_: t };
        let b = FunArgModel { mutable: false, name, type_annotation: Some(t) };
        lemma_more(s, q, fields, 1, seq![a], seq![b]);
        lemma_typed(s, p + 1, name, t);
        assert(seq![a] + as_arg_types(fields).skip(1) =~= as_arg_types(fields));
        assert(seq![b] + as_fields(fields).skip(1) =~= as_fields(fields));
        let e = p + all.len();
        assert(q + rest.len() == e - 1);
        assert(char_at(s, e - 1) == Some(')'));
        lemma_first_step(s, p + 1, a, b, q, as_arg_types(fields), as_fields(fields), e - 1);
    }
}

// ─── Declarations ─────────────────────────────────────────────────────────────

/// Whether a declaration is read at a position.
#[verifier::opaque]
pub open spec fn is_declared(s: Seq<char>, p: int, exported: bool, d: DeclModel) -> bool {
    toplevel_at(s, p, exported) matches Ok((found, _)) && found == d
}

/// What is read of a name at the top level, where a colon or a parenthesis follows it.
proof fn lemma_name(s: Seq<char>, p: int, name: Seq<char>, c: char)
    requires
        text::is_ascii(s),
        is_id(name),
        name != "native"@,
        c == ':' || c == '(',
        text::occurs_at(s, name + seq![c], p),
        c == ':' ==> p + name.len() + 1 < s.len() && s[p + name.len() + 1] != ':',
    ensures
        blanks_end(s, p) == p,
        !keyword_at(s, p, "native"@),
        id_at(s, p) == Ok::<(Seq<char>, int), FailureModel>((name, p + name.len())),
        followed_by(id_at(s, p), s, c) == Ok::<(Seq<char>, int), FailureModel>(
            (name, p + name.len() + 1),
        ),
        blanks_end(s, p + name.len()) == p + name.len(),
        char_at(s, p + name.len()) == Some(c),
        union_follows(s, p + name.len()) == Ok::<bool, FailureModel>(false),
{
    lemma_parts_occur(s, name, seq![c], p);
    let q = p + name.len();
    lemma_char(s, c, q);
    lemma_read_id(s, p, name);
    reveal_strlit("native");
    assert forall|i: int| 0 <= i < "native"@.len() implies is_id_continue(
        #[trigger] "native"@[i],
    ) by {}
    lemma_not_keyword(s, p, name, "native"@);
    reveal_strlit("::=");
    lemma_cut_some(s, q, "::="@.len());
    if text::occurs_at(s, "::="@, q) {
        lemma_chars(s, "::="@, q);
        assert(s[q + 0] == "::="@[0]);
        assert(s[q + 1] == "::="@[1]);
    }
}

/// A variable is declared by its name and its type.
pub proof fn variables_are_declared(
    s: Seq<char>,
    p: int,
    name: Seq<char>,
    t: Flow9TypeModel,
    exported: bool,
)
    requires
        text::is_ascii(s),
        is_id(name),
        name != "native"@,
        is_writable(t),
        !(t is FnType),
        text::occurs_at(s, typed_text(name, t) + seq![';'], p),
    ensures
        is_declared(s, p, exported, DeclModel::VarDecl {
            name,
            type_annotation: t,
            has_init: false,
            exported,
        }),
{
    let x = flow9_text(t);
    assert(typed_text(name, t) + seq![';'] =~= (name + seq![':']) + (x + seq![';']));
    lemma_parts_occur(s, name + seq![':'], x + seq![';'], p);
    let n = p + name.len() + 1;
    lemma_parts_occur(s, x, seq![';'], n);
    lemma_start(t);
    lemma_chars(s, x, n);
    assert(s[n + 0] == x[0]);
    lemma_name(s, p, name, ':');
    let e = n + x.len();
    lemma_char(s, ';', e);
    lemma_read(t, s, n);
    reveal(is_read);
    lemma_no_parenthesis(t);
    reveal(is_declared);
    assert(var_decl_at(s, n, name, exported) matches Ok((d, _)) && d == (DeclModel::VarDecl {
        name,
        type_annotation: t,
        has_init: false,
        exported,
    }));
}

/// A variable that is declared with a value is known to have one.
pub proof fn variables_with_values_are_marked(
    s: Seq<char>,
    p: int,
    name: Seq<char>,
    t: Flow9TypeModel,
    c: char,
    exported: bool,
)
    requires
        text::is_ascii(s),
        is_id(name),
        name != "native"@,
        is_writable(t),
        !(t is FnType),
        c != '=',
        text::occurs_at(s, typed_text(name, t) + seq!['=', c], p),
    ensures
        is_declared(s, p, exported, DeclModel::VarDecl {
            name,
            type_annotation: t,
            has_init: true,
            exported,
        }),
{
    let x = flow9_text(t);
    assert(typed_text(name, t) + seq!['=', c] =~= (name + seq![':']) + (x + (seq!['='] + seq![c])));
    lemma_parts_occur(s, name + seq![':'], x + (seq!['='] + seq![c]), p);
    let n = p + name.len() + 1;
    lemma_parts_occur(s, x, seq!['='] + seq![c], n);
    let e = n + x.len();
    lemma_parts_occur(s, seq!['='], seq![c], e);
    lemma_start(t);
    lemma_chars(s, x, n);
    assert(s[n + 0] == x[0]);
    lemma_name(s, p, name, ':');
    lemma_char(s, '=', e);
    lemma_char(s, c, e + 1);
    reveal_strlit("==");
    lemma_cut_some(s, e, "=="@.len());
    if text::occurs_at(s, "=="@, e) {
        lemma_chars(s, "=="@, e);
        assert(s[e + 1] == "=="@[1]);
    }
    lemma_read(t, s, n);
    reveal(is_read);
    lemma_no_parenthesis(t);
    reveal(is_declared);
    assert(var_decl_at(s, n, name, exported) matches Ok((d, _)) && d == (DeclModel::VarDecl {
        name,
        type_annotation: t,
        has_init: true,
        exported,
    }));
}

/// Only function types begin with a parenthesis.
proof fn lemma_no_parenthesis(t: Flow9TypeModel)
    requires
        is_writable(t),
        !(t is FnType),
    ensures
        flow9_text(t)[0] != '(',
{
    super::written::lemma_shape(t);
    match t {
        Flow9TypeModel::Named(name) => {
            assert(super::scan::is_id_start(name[0]));
        },
        Flow9TypeModel::TypeVar(name) => {
            assert(name[0] == '?');
        },
        Flow9TypeModel::Parameterized(name, args) => {
            assert(super::scan::is_id_start(name[0]));
            assert(flow9_text(t)[0] == name[0]);
        },
        _ => {},
    }
}

proof fn lemma_arrow_behind(s: Seq<char>, at: int, ret: Flow9TypeModel)
    requires
        text::is_ascii(s),
        is_writable(ret),
        text::occurs_at(s, seq!['-', '>', ' '] + flow9_text(ret), at),
        closes(s, at + 3 + flow9_text(ret).len()),
    ensures
        is_arrow_read(s, at, Some(ret), at + 3 + flow9_text(ret).len()),
        blanks_end(s, at) == at,
        char_at(s, at) == Some('-'),
{
    let x = flow9_text(ret);
    lemma_parts_occur(s, seq!['-', '>', ' '], x, at);
    lemma_read(ret, s, at + 3);
    lemma_arrow(s, at, ret, at + 3 + x.len());
    reveal(is_arrow_read);
    lemma_chars(s, seq!['-', '>', ' '], at);
    assert(s[at + 0] == seq!['-', '>', ' '][0]);
}

/// A declaration with arguments, from what is read of it.
proof fn lemma_declaration_step(
    s: Seq<char>,
    p: int,
    name: Seq<char>,
    n: int,
    fields: Seq<(Seq<char>, Flow9TypeModel)>,
    e: int,
    ret: Option<Flow9TypeModel>,
    z: int,
    exported: bool,
)
    requires
        blanks_end(s, p) == p,
        !keyword_at(s, p, "native"@),
        id_at(s, p) == Ok::<(Seq<char>, int), FailureModel>((name, n - 1)),
        followed_by(id_at(s, p), s, ':') == Ok::<(Seq<char>, int), FailureModel>((name, n)),
        blanks_end(s, n - 1) == n - 1,
        char_at(s, n - 1) == Some(':'),
        union_follows(s, n - 1) == Ok::<bool, FailureModel>(false),
        char_at(s, n) == Some('('),
        blanks_end(s, n) == n,
        blanks_end(s, n + 1) == n + 1,
        fields.len() == 0 ==> char_at(s, n + 1) == Some(')') && e == n + 2,
        fields.len() > 0 ==> char_at(s, n + 1) != Some(')') && are_types_read(
            s,
            n + 1,
            as_arg_types(fields),
            e - 1,
        ),
        char_at(s, e - 1) == Some(')'),
        blanks_end(s, e - 1) == e - 1,
        blanks_end(s, e) == e,
        is_arrow_read(s, e, ret, z),
    ensures
        is_declared(s, p, exported, match ret {
            Some(return_type) => DeclModel::FunctionDecl {
                name,
                arg_types: as_arg_types(fields),
                return_type,
                exported,
            },
            None => DeclModel::StructDecl { name, fields: as_fields(fields), exported },
        }),
{
    reveal(is_declared);
    reveal(are_types_read);
    reveal(is_arrow_read);
    assert(fields_of_types(as_arg_types(fields)) =~= as_fields(fields));
    if fields.len() == 0 {
        assert(as_arg_types(fields) =~= Seq::empty());
        assert(as_fields(fields) =~= Seq::empty());
    }
    assert(parens_decl_at(s, n + 1, name, exported) == function_or_struct(
        s,
        e,
        name,
        as_arg_types(fields),
        as_fields(fields),
        exported,
    ));
}

/// A function is declared by its name, the names and types of its arguments, and the type that
/// it returns.
pub proof fn functions_are_declared(
    s: Seq<char>,
    p: int,
    name: Seq<char>,
    fields: Seq<(Seq<char>, Flow9TypeModel)>,
    ret: Flow9TypeModel,
    exported: bool,
)
    requires
        text::is_ascii(s),
        is_id(name),
        name != "native"@,
        are_fields(fields),
        is_writable(ret),
        text::occurs_at(
            s,
            name + seq![':'] + fields_text(fields) + seq!['-', '>', ' '] + flow9_text(ret)
                + seq![';'],
            p,
        ),
    ensures
        is_declared(s, p, exported, DeclModel::FunctionDecl {
            name,
            arg_types: as_arg_types(fields),
            return_type: ret,
            exported,
        }),
{
    let f = fields_text(fields);
    let r = seq!['-', '>', ' '] + flow9_text(ret);
    assert(name + seq![':'] + f + seq!['-', '>', ' '] + flow9_text(ret) + seq![';'] =~= (name
        + seq![':']) + (f + (r + seq![';'])));
    lemma_parts_occur(s, name + seq![':'], f + (r + seq![';']), p);
    let n = p + name.len() + 1;
    lemma_parts_occur(s, f, r + seq![';'], n);
    lemma_fields(s, n, fields);
    let e = n + f.len();
    lemma_parts_occur(s, r, seq![';'], e);
    lemma_char(s, ';', e + r.len());
    lemma_name(s, p, name, ':');
    lemma_arrow_behind(s, e, ret);
    lemma_declaration_step(s, p, name, n, fields, e, Some(ret), e + r.len(), exported);
}

/// A struct is declared by its name and the names and types of its fields.
pub proof fn structs_are_declared(
    s: Seq<char>,
    p: int,
    name: Seq<char>,
    fields: Seq<(Seq<char>, Flow9TypeModel)>,
    exported: bool,
)
    requires
        text::is_ascii(s),
        is_id(name),
        name != "native"@,
        are_fields(fields),
        text::occurs_at(s, name + seq![':'] + fields_text(fields) + seq![';'], p),
    ensures
        is_declared(s, p, exported, DeclModel::StructDecl {
            name,
            fields: as_fields(fields),
            exported,
        }),
{
    let f = fields_text(fields);
    assert(name + seq![':'] + f + seq![';'] =~= (name + seq![':']) + (f + seq![';']));
    lemma_parts_occur(s, name + seq![':'], f + seq![';'], p);
    let n = p + name.len() + 1;
    lemma_parts_occur(s, f, seq![';'], n);
    lemma_fields(s, n, fields);
    let e = n + f.len();
    lemma_char(s, ';', e);
    lemma_name(s, p, name, ':');
    reveal_strlit("->");
    lemma_cut_some(s, e, "->"@.len());
    if text::occurs_at(s, "->"@, e) {
        lemma_chars(s, "->"@, e);
        assert(s[e + 0] == "->"@[0]);
    }
    reveal(is_arrow_read);
    lemma_declaration_step(s, p, name, n, fields, e, None, e, exported);
}

// ─── Functions with bodies ────────────────────────────────────────────────────

/// Whether a text holds neither braces nor quotes.
pub open spec fn is_plain_body(body: Seq<char>) -> bool {
    text::lacks(body, '{') && text::lacks(body, '}') && text::lacks(body, '"')
}

proof fn lemma_body(s: Seq<char>, i: int, e: int)
    requires
        0 <= i <= e < s.len(),
        forall|j: int| i <= j < e ==> #[trigger] s[j] != '{' && s[j] != '}' && s[j] != '"',
        s[e] == '}',
    ensures
        closing_brace(s, i, 1, false, false) == Some(e),
    decreases e - i,
{
    if i < e {
        assert(s[i] != '{' && s[i] != '}' && s[i] != '"');
        lemma_body(s, i + 1, e);
    }
}

/// A definition of a function, from what is read of it.
proof fn lemma_definition_step(
    s: Seq<char>,
    p: int,
    name: Seq<char>,
    n: int,
    fields: Seq<(Seq<char>, Flow9TypeModel)>,
    e: int,
    ret: Flow9TypeModel,
    q: int,
    body: Seq<char>,
    exported: bool,
)
    requires
        blanks_end(s, p) == p,
        !keyword_at(s, p, "native"@),
        id_at(s, p) == Ok::<(Seq<char>, int), FailureModel>((name, n)),
        followed_by(id_at(s, p), s, '(') == Ok::<(Seq<char>, int), FailureModel>((name, n + 1)),
        blanks_end(s, n) == n,
        char_at(s, n) == Some('('),
        union_follows(s, n) == Ok::<bool, FailureModel>(false),
        blanks_end(s, n + 1) == n + 1,
        fields.len() == 0 ==> char_at(s, n + 1) == Some(')') && e == n + 2,
        fields.len() > 0 ==> char_at(s, n + 1) != Some(')') && are_args_read(
            s,
            n + 1,
            as_fields(fields),
            e - 1,
        ),
        char_at(s, e - 1) == Some(')'),
        blanks_end(s, e - 1) == e - 1,
        blanks_end(s, e) == e,
        is_arrow_read(s, e, Some(ret), q),
        blanks_end(s, q) == q,
        body_at(s, q) matches Ok((found, _)) && found == Some(body),
    ensures
        is_declared(s, p, exported, DeclModel::Function {
            name,
            args: as_fields(fields),
            return_type: Some(ret),
            body: Some(body),
            exported,
        }),
{
    reveal(is_declared);
    reveal(are_args_read);
    reveal(is_arrow_read);
    if fields.len() == 0 {
        assert(as_fields(fields) =~= Seq::empty());
    }
    assert(followed_by(arguments_at(s, n + 1), s, ')') == Ok::<
        (Seq<FunArgModel>, int),
        FailureModel,
    >((as_fields(fields), e)));
}

/// A function is defined by its name, its arguments with their types, the type that it returns,
/// and its body.
pub proof fn functions_are_defined(
    s: Seq<char>,
    p: int,
    name: Seq<char>,
    fields: Seq<(Seq<char>, Flow9TypeModel)>,
    ret: Flow9TypeModel,
    body: Seq<char>,
    exported: bool,
)
    requires
        text::is_ascii(s),
        is_id(name),
        name != "native"@,
        are_fields(fields),
        is_writable(ret),
        is_plain_body(body),
        text::occurs_at(
            s,
            name + fields_text(fields) + seq!['-', '>', ' '] + flow9_text(ret) + seq!['{'] + body
                + seq!['}'],
            p,
        ),
    ensures
        is_declared(s, p, exported, DeclModel::Function {
            name,
            args: as_fields(fields),
            return_type: Some(ret),
            body: Some(body),
            exported,
        }),
{
    let f = fields_text(fields);
    let r = seq!['-', '>', ' '] + flow9_text(ret);
    let b = seq!['{'] + (body + seq!['}']);
    assert(name + f + seq!['-', '>', ' '] + flow9_text(ret) + seq!['{'] + body + seq!['}']
        =~= name + (f + (r + b)));
    lemma_parts_occur(s, name, f + (r + b), p);
    let n = p + name.len();
    lemma_parts_occur(s, f, r + b, n);
    lemma_fields(s, n, fields);
    let e = n + f.len();
    lemma_parts_occur(s, r, b, e);
    let q = e + r.len();
    lemma_parts_occur(s, seq!['{'], body + seq!['}'], q);
    lemma_char(s, '{', q);
    lemma_parts_occur(s, body, seq!['}'], q + 1);
    let close = q + 1 + body.len();
    lemma_char(s, '}', close);
    lemma_chars(s, body, q + 1);
    assert forall|j: int| q + 1 <= j < close implies #[trigger] s[j] != '{' && s[j] != '}' && s[j]
        != '"' by {
        assert(s[q + 1 + (j - q - 1)] == body[j - q - 1]);
    }
    lemma_body(s, q + 1, close);
    assert(s.subrange(q + 1, close) =~= body);
    assert(text::occurs_at(s, name + seq!['('], p)) by {
        assert(s.subrange(p, p + name.len() + 1) =~= name + seq!['(']) by {
            lemma_chars(s, name, p);
            assert forall|j: int| 0 <= j < name.len() implies s.subrange(
                p,
                p + name.len() + 1,
            )[j] == (name + seq!['('])[j] by {
                assert(s[p + j] == name[j]);
            }
        }
    }
    lemma_name(s, p, name, '(');
    lemma_arrow_behind(s, e, ret);
    assert(body_at(s, q) matches Ok((found, _)) && found == Some(body));
    lemma_definition_step(s, p, name, n, fields, e, ret, q, body, exported);
}

// ─── Imports ──────────────────────────────────────────────────────────────────

/// A path of one name behind a keyword, and the semicolon behind it.
proof fn lemma_path_statement(s: Seq<char>, p: int, name: Seq<char>) -> (n: int)
    requires
        is_id(name),
        text::occurs_at(s, seq![' '] + name + seq![';'], p),
    ensures
        is_path_read(s, p, name, n),
        p < n <= s.len(),
{
    assert(seq![' '] + name + seq![';'] =~= seq![' '] + (name + seq![';']));
    lemma_parts_occur(s, seq![' '], name + seq![';'], p);
    lemma_char(s, ' ', p);
    lemma_parts_occur(s, name, seq![';'], p + 1);
    lemma_char(s, ';', p + 1 + name.len());
    lemma_read_id(s, p + 1, name);
    assert(blanks_end(s, p) == p + 1);
    assert(id_at(s, p) == id_at(s, p + 1));
    lemma_runs(s, p + 2 + name.len());
    reveal(is_path_read);
    blanks_end(s, p + 2 + name.len())
}

/// An import and a forbidden import are listed where they stand first, each in its list.
pub proof fn imports_are_listed(s: Seq<char>, p: int, name: Seq<char>, m: Flow9ModuleModel)
    requires
        is_id(name),
    ensures
        text::occurs_at(s, "import"@ + seq![' '] + name + seq![';'], p) ==> exists|n: int|
            p < n <= s.len() && header_from(s, p, m) == #[trigger] header_from(
                s,
                n,
                Flow9ModuleModel {
                    imports: m.imports.push(name),
                    declarations: m.declarations.push(DeclModel::Import(name)),
                    ..m
                },
            ),
        text::occurs_at(s, "forbid"@ + seq![' '] + name + seq![';'], p) ==> exists|n: int|
            p < n <= s.len() && header_from(s, p, m) == #[trigger] header_from(
                s,
                n,
                Flow9ModuleModel {
                    forbids: m.forbids.push(name),
                    declarations: m.declarations.push(DeclModel::Forbid(name)),
                    ..m
                },
            ),
{
    reveal_strlit("import");
    reveal_strlit("require");
    reveal_strlit("export");
    reveal_strlit("forbid");
    if text::occurs_at(s, "import"@ + seq![' '] + name + seq![';'], p) {
        let n = lemma_keyword(s, p, "import"@, name);
        lemma_import_step(s, p, name, n, m);
    }
    if text::occurs_at(s, "forbid"@ + seq![' '] + name + seq![';'], p) {
        let n = lemma_keyword(s, p, "forbid"@, name);
        assert("forbid"@[0] == 'f' && "import"@[0] == 'i' && "require"@[0] == 'r');
        assert("export"@[0] == 'e');
        lemma_forbid_step(s, p, name, n, m);
    }
}

proof fn lemma_import_step(s: Seq<char>, p: int, name: Seq<char>, n: int, m: Flow9ModuleModel)
    requires
        blanks_end(s, p) == p,
        p < n <= s.len(),
        keyword_at(s, p, "import"@),
        is_path_read(s, p + 6, name, n),
    ensures
        header_from(s, p, m) == header_from(s, n, with_import(m, name)),
{
    reveal(is_path_read);
}

proof fn lemma_forbid_step(s: Seq<char>, p: int, name: Seq<char>, n: int, m: Flow9ModuleModel)
    requires
        blanks_end(s, p) == p,
        p < n <= s.len(),
        keyword_at(s, p, "forbid"@),
        !keyword_at(s, p, "import"@),
        !keyword_at(s, p, "require"@),
        !keyword_at(s, p, "export"@),
        is_path_read(s, p + 6, name, n),
    ensures
        header_from(s, p, m) == header_from(s, n, with_forbid(m, name)),
{
    reveal(is_path_read);
}

proof fn lemma_keyword(s: Seq<char>, p: int, word: Seq<char>, name: Seq<char>) -> (n: int)
    requires
        is_id(name),
        word == "import"@ || word == "forbid"@ || word == "require"@,
        text::occurs_at(s, word + seq![' '] + name + seq![';'], p),
    ensures
        blanks_end(s, p) == p,
        0 <= p < s.len(),
        keyword_at(s, p, word),
        forall|other: Seq<char>|
            other.len() > 0 && other[0] != word[0] ==> !#[trigger] keyword_at(s, p, other),
        is_path_read(s, p + word.len(), name, n),
        p < n <= s.len(),
{
    reveal_strlit("import");
    reveal_strlit("forbid");
    reveal_strlit("require");
    assert(word + seq![' '] + name + seq![';'] =~= word + (seq![' '] + name + seq![';']));
    lemma_parts_occur(s, word, seq![' '] + name + seq![';'], p);
    lemma_chars(s, word, p);
    assert(s[p + 0] == word[0]);
    let n = lemma_path_statement(s, p + word.len(), name);
    assert(seq![' '] + name + seq![';'] =~= seq![' '] + (name + seq![';']));
    lemma_parts_occur(s, seq![' '], name + seq![';'], p + word.len());
    lemma_char(s, ' ', p + word.len());
    assert forall|other: Seq<char>|
        other.len() > 0 && other[0] != word[0] implies !#[trigger] keyword_at(
        s,
        p,
        other,
    ) by {
        if keyword_at(s, p, other) {
            lemma_chars(s, other, p);
            assert(s[p + 0] == other[0]);
        }
    }
    n
}

proof fn lemma_require_step(s: Seq<char>, p: int, name: Seq<char>, n: int, m: Flow9ModuleModel)
    requires
        blanks_end(s, p) == p,
        p < n <= s.len(),
        keyword_at(s, p, "require"@),
        !keyword_at(s, p, "import"@),
        is_path_read(s, p + 7, name, n),
    ensures
        header_from(s, p, m) == header_from(s, n, m),
{
    reveal(is_path_read);
}

/// What is required at run time is passed over: it is neither an import nor forbidden.
pub proof fn requirements_are_passed_over(
    s: Seq<char>,
    p: int,
    name: Seq<char>,
    m: Flow9ModuleModel,
)
    requires
        is_id(name),
        text::occurs_at(s, "require"@ + seq![' '] + name + seq![';'], p),
    ensures
        exists|n: int| p < n <= s.len() && header_from(s, p, m) == #[trigger] header_from(s, n, m),
{
    reveal_strlit("import");
    reveal_strlit("require");
    assert("require"@[0] == 'r' && "import"@[0] == 'i');
    let n = lemma_keyword(s, p, "require"@, name);
    lemma_require_step(s, p, name, n, m);
}

// ─── Unions ───────────────────────────────────────────────────────────────────

/// How the variants from the `k`-th on are written, each behind a comma.
pub open spec fn variants_text(names: Seq<Seq<char>>, k: int) -> Seq<char>
    decreases names.len() - k,
{
    if 0 <= k < names.len() {
        seq![','] + names[k] + variants_text(names, k + 1)
    } else {
        Seq::empty()
    }
}

/// Names, as the variants of a union.
pub open spec fn as_variants(names: Seq<Seq<char>>) -> Seq<TypeNameModel> {
    names.map_values(|n: Seq<char>| TypeNameModel { name: n, type_params: Seq::empty() })
}

pub open spec fn are_ids(names: Seq<Seq<char>>) -> bool {
    forall|i: int| 0 <= i < names.len() ==> is_id(#[trigger] names[i])
}

proof fn lemma_variant(s: Seq<char>, p: int, name: Seq<char>)
    requires
        is_id(name),
        text::occurs_at(s, name, p),
        p + name.len() < s.len(),
        s[p + name.len()] == ',' || s[p + name.len()] == ';',
    ensures
        type_name_at(s, p) == Ok::<(TypeNameModel, int), FailureModel>(
            ((TypeNameModel { name, type_params: Seq::empty() }), p + name.len()),
        ),
{
    lemma_read_id(s, p, name);
}

proof fn lemma_variants(
    s: Seq<char>,
    p: int,
    names: Seq<Seq<char>>,
    k: int,
    done: Seq<TypeNameModel>,
)
    requires
        are_ids(names),
        0 <= k <= names.len(),
        text::occurs_at(s, variants_text(names, k) + seq![';'], p),
    ensures
        type_names_rest(s, p, done) == Ok::<(Seq<TypeNameModel>, int), FailureModel>(
            (done + as_variants(names).skip(k), p + variants_text(names, k).len()),
        ),
        0 <= p < s.len(),
        s[p] == ',' || s[p] == ';',
    decreases names.len() - k,
{
    let x = variants_text(names, k);
    lemma_parts_occur(s, x, seq![';'], p);
    lemma_char(s, ';', p + x.len());
    if k < names.len() {
        let name = names[k];
        let rest = variants_text(names, k + 1);
        assert(x + seq![';'] =~= seq![','] + (name + (rest + seq![';'])));
        lemma_parts_occur(s, seq![','], name + (rest + seq![';']), p);
        lemma_char(s, ',', p);
        lemma_parts_occur(s, name, rest + seq![';'], p + 1);
        let q = p + 1 + name.len();
        let v = TypeNameModel { name, type_params: Seq::empty() };
        lemma_variants(s, q, names, k + 1, done.push(v));
        lemma_variant(s, p + 1, name);
        assert(done.push(v) + as_variants(names).skip(k + 1) =~= done + as_variants(names).skip(
            k,
        ));
    } else {
        assert(done + as_variants(names).skip(k) =~= done);
    }
}

/// A union, from what is read of it.
proof fn lemma_union_step(
    s: Seq<char>,
    p: int,
    name: Seq<char>,
    q: int,
    variants: Seq<TypeNameModel>,
    e: int,
    exported: bool,
)
    requires
        blanks_end(s, p) == p,
        !keyword_at(s, p, "native"@),
        id_at(s, p) == Ok::<(Seq<char>, int), FailureModel>((name, q)),
        blanks_end(s, q) == q,
        char_at(s, q) == Some(':'),
        super::scan::looking_at(s, q, "::="@) == Ok::<bool, FailureModel>(true),
        are_variants_read(s, q + 3, variants, e),
    ensures
        is_declared(s, p, exported, DeclModel::Union { name, type_params: Seq::empty(), variants }),
{
    reveal(is_declared);
    reveal(are_variants_read);
    assert(union_at(s, p) matches Ok((d, _)) && d == (DeclModel::Union {
        name,
        type_params: Seq::empty(),
        variants,
    }));
}

/// Whether the variants of a union are read.
#[verifier::opaque]
spec fn are_variants_read(s: Seq<char>, p: int, all: Seq<TypeNameModel>, e: int) -> bool {
    type_names_at(s, p) == Ok::<(Seq<TypeNameModel>, int), FailureModel>((all, e))
}

/// The variants of a union are read as they are written.
proof fn lemma_all_variants(s: Seq<char>, p: int, names: Seq<Seq<char>>)
    requires
        names.len() > 0,
        are_ids(names),
        text::occurs_at(s, names[0] + (variants_text(names, 1) + seq![';']), p),
    ensures
        are_variants_read(
            s,
            p,
            as_variants(names),
            p + names[0].len() + variants_text(names, 1).len(),
        ),
{
    let first = names[0];
    let rest = variants_text(names, 1) + seq![';'];
    lemma_parts_occur(s, first, rest, p);
    let n = p + first.len();
    let v = TypeNameModel { name: first, type_params: Seq::empty() };
    lemma_variants(s, n, names, 1, seq![v]);
    assert(is_id(first));
    lemma_variant(s, p, first);
    assert(seq![v] + as_variants(names).skip(1) =~= as_variants(names));
    reveal(are_variants_read);
}

/// A union is declared by its name and the names of its variants.
pub proof fn unions_are_declared(
    s: Seq<char>,
    p: int,
    name: Seq<char>,
    names: Seq<Seq<char>>,
    exported: bool,
)
    requires
        text::is_ascii(s),
        is_id(name),
        name != "native"@,
        names.len() > 0,
        are_ids(names),
        text::occurs_at(
            s,
            name + "::="@ + names[0] + variants_text(names, 1) + seq![';'],
            p,
        ),
    ensures
        is_declared(s, p, exported, DeclModel::Union {
            name,
            type_params: Seq::empty(),
            variants: as_variants(names),
        }),
{
    reveal_strlit("::=");
    reveal_strlit("native");
    let first = names[0];
    let rest = variants_text(names, 1) + seq![';'];
    assert(name + "::="@ + first + variants_text(names, 1) + seq![';'] =~= name + ("::="@ + (first
        + rest)));
    lemma_parts_occur(s, name, "::="@ + (first + rest), p);
    let q = p + name.len();
    lemma_parts_occur(s, "::="@, first + rest, q);
    lemma_chars(s, "::="@, q);
    assert(s[q + 0] == "::="@[0]);
    lemma_all_variants(s, q + 3, names);
    lemma_read_id(s, p, name);
    assert forall|i: int| 0 <= i < "native"@.len() implies is_id_continue(
        #[trigger] "native"@[i],
    ) by {}
    lemma_not_keyword(s, p, name, "native"@);
    lemma_cut_some(s, q, "::="@.len());
    let e = q + 3 + first.len() + variants_text(names, 1).len();
    lemma_union_step(s, p, name, q, as_variants(names), e, exported);
}

// ─── Native functions ─────────────────────────────────────────────────────────

/// A native function is declared by its name, its type, and what it is bound to.
pub proof fn natives_are_declared(
    s: Seq<char>,
    p: int,
    name: Seq<char>,
    t: Flow9TypeModel,
    binding: Seq<char>,
    exported: bool,
)
    requires
        text::is_ascii(s),
        is_id(name),
        is_id(binding),
        is_writable(t),
        t != Flow9TypeModel::Named("io"@),
        !(t matches Flow9TypeModel::Parameterized(n, _) && n == "io"@),
        text::occurs_at(
            s,
            "native"@ + seq![' '] + typed_text(name, t) + seq!['='] + binding + seq![';'],
            p,
        ),
    ensures
        is_declared(s, p, exported, DeclModel::Native {
            name,
            io: false,
            type_sig: t,
            binding,
        }),
{
    reveal_strlit("native");
    let x = flow9_text(t);
    let tail = seq!['='] + (binding + seq![';']);
    assert("native"@ + seq![' '] + typed_text(name, t) + seq!['='] + binding + seq![';']
        =~= "native"@ + (seq![' '] + (name + (seq![':'] + (x + tail)))));
    lemma_parts_occur(s, "native"@, seq![' '] + (name + (seq![':'] + (x + tail))), p);
    lemma_chars(s, "native"@, p);
    assert(s[p + 0] == "native"@[0]);
    let a = p + 6;
    lemma_parts_occur(s, seq![' '], name + (seq![':'] + (x + tail)), a);
    lemma_char(s, ' ', a);
    lemma_parts_occur(s, name, seq![':'] + (x + tail), a + 1);
    let c = a + 1 + name.len();
    lemma_parts_occur(s, seq![':'], x + tail, c);
    lemma_char(s, ':', c);
    lemma_read_id(s, a + 1, name);
    assert(blanks_end(s, a) == a + 1);
    assert(id_at(s, a) == id_at(s, a + 1));
    lemma_parts_occur(s, x, tail, c + 1);
    let e = c + 1 + x.len();
    lemma_parts_occur(s, seq!['='], binding + seq![';'], e);
    lemma_char(s, '=', e);
    lemma_parts_occur(s, binding, seq![';'], e + 1);
    let z = e + 1 + binding.len();
    lemma_char(s, ';', z);
    lemma_read_id(s, e + 1, binding);
    lemma_start(t);
    lemma_chars(s, x, c + 1);
    assert(s[c + 1 + 0] == x[0]);
    lemma_read(t, s, c + 1);
    lemma_not_io(s, c + 1, t);
    assert(keyword_at(s, p, "native"@));
    lemma_native_step(s, p, name, c, t, e, binding, z, exported);
}

/// A native function, from what is read of it.
proof fn lemma_native_step(
    s: Seq<char>,
    p: int,
    name: Seq<char>,
    c: int,
    t: Flow9TypeModel,
    e: int,
    binding: Seq<char>,
    z: int,
    exported: bool,
)
    requires
        blanks_end(s, p) == p,
        keyword_at(s, p, "native"@),
        id_at(s, p + 6) == Ok::<(Seq<char>, int), FailureModel>((name, c)),
        expected_char(s, c, ':') == Ok::<int, FailureModel>(c + 1),
        blanks_end(s, c + 1) == c + 1,
        !keyword_at(s, c + 1, "io"@),
        is_read(s, c + 1, t, e),
        expected_char(s, e, '=') == Ok::<int, FailureModel>(e + 1),
        id_at(s, e + 1) == Ok::<(Seq<char>, int), FailureModel>((binding, z)),
        blanks_end(s, z) == z,
        char_at(s, z) == Some(';'),
    ensures
        is_declared(s, p, exported, DeclModel::Native {
            name,
            io: false,
            type_sig: t,
            binding,
        }),
{
    reveal(is_declared);
    reveal(is_read);
    assert(super::scan::dotted_name_at(s, e + 1) == Ok::<(Seq<char>, int), FailureModel>(
        (binding, z),
    ));
    assert(native_at(s, p) matches Ok((d, _)) && d == (DeclModel::Native {
        name,
        io: false,
        type_sig: t,
        binding,
    }));
}

/// A native function with effects is marked so.
pub proof fn natives_with_effects_are_marked(
    s: Seq<char>,
    p: int,
    name: Seq<char>,
    t: Flow9TypeModel,
    binding: Seq<char>,
    exported: bool,
)
    requires
        text::is_ascii(s),
        is_id(name),
        is_id(binding),
        is_writable(t),
        text::occurs_at(
            s,
            "native"@ + seq![' '] + name + seq![':'] + "io"@ + seq![' '] + flow9_text(t) + seq!['=']
                + binding + seq![';'],
            p,
        ),
    ensures
        is_declared(s, p, exported, DeclModel::Native { name, io: true, type_sig: t, binding }),
{
    reveal_strlit("native");
    reveal_strlit("io");
    let x = flow9_text(t);
    let tail = seq!['='] + (binding + seq![';']);
    let typed = "io"@ + (seq![' '] + (x + tail));
    assert("native"@ + seq![' '] + name + seq![':'] + "io"@ + seq![' '] + x + seq!['='] + binding
        + seq![';'] =~= "native"@ + (seq![' '] + (name + (seq![':'] + typed))));
    lemma_parts_occur(s, "native"@, seq![' '] + (name + (seq![':'] + typed)), p);
    lemma_chars(s, "native"@, p);
    assert(s[p + 0] == "native"@[0]);
    let a = p + 6;
    lemma_parts_occur(s, seq![' '], name + (seq![':'] + typed), a);
    lemma_char(s, ' ', a);
    lemma_parts_occur(s, name, seq![':'] + typed, a + 1);
    let c = a + 1 + name.len();
    lemma_parts_occur(s, seq![':'], typed, c);
    lemma_char(s, ':', c);
    lemma_read_id(s, a + 1, name);
    assert(blanks_end(s, a) == a + 1);
    assert(id_at(s, a) == id_at(s, a + 1));
    lemma_parts_occur(s, "io"@, seq![' '] + (x + tail), c + 1);
    lemma_chars(s, "io"@, c + 1);
    assert(s[c + 1 + 0] == "io"@[0]);
    lemma_parts_occur(s, seq![' '], x + tail, c + 3);
    lemma_char(s, ' ', c + 3);
    lemma_parts_occur(s, x, tail, c + 4);
    let e = c + 4 + x.len();
    lemma_parts_occur(s, seq!['='], binding + seq![';'], e);
    lemma_char(s, '=', e);
    lemma_parts_occur(s, binding, seq![';'], e + 1);
    let z = e + 1 + binding.len();
    lemma_char(s, ';', z);
    lemma_read_id(s, e + 1, binding);
    lemma_start(t);
    lemma_chars(s, x, c + 4);
    assert(s[c + 4 + 0] == x[0]);
    lemma_read(t, s, c + 4);
    assert(blanks_end(s, c + 4) == c + 4);
    reveal_with_fuel(blanks_end, 2);
    assert(blanks_end(s, c + 3) == c + 4);
    assert(keyword_at(s, p, "native"@));
    assert(keyword_at(s, c + 1, "io"@));
    lemma_blank_before(s, c + 3, t, e);
    lemma_effect_step(s, p, name, c, t, e, binding, z, exported);
}

proof fn lemma_blank_before(s: Seq<char>, p: int, t: Flow9TypeModel, e: int)
    requires
        blanks_end(s, p) == p + 1,
        blanks_end(s, p + 1) == p + 1,
        is_read(s, p + 1, t, e),
    ensures
        is_read(s, p, t, e),
{
    reveal(is_read);
    assert(type_at(s, p) == type_at(s, p + 1));
}

proof fn lemma_effect_step(
    s: Seq<char>,
    p: int,
    name: Seq<char>,
    c: int,
    t: Flow9TypeModel,
    e: int,
    binding: Seq<char>,
    z: int,
    exported: bool,
)
    requires
        blanks_end(s, p) == p,
        keyword_at(s, p, "native"@),
        id_at(s, p + 6) == Ok::<(Seq<char>, int), FailureModel>((name, c)),
        expected_char(s, c, ':') == Ok::<int, FailureModel>(c + 1),
        blanks_end(s, c + 1) == c + 1,
        keyword_at(s, c + 1, "io"@),
        is_read(s, c + 3, t, e),
        expected_char(s, e, '=') == Ok::<int, FailureModel>(e + 1),
        id_at(s, e + 1) == Ok::<(Seq<char>, int), FailureModel>((binding, z)),
        blanks_end(s, z) == z,
        char_at(s, z) == Some(';'),
    ensures
        is_declared(s, p, exported, DeclModel::Native { name, io: true, type_sig: t, binding }),
{
    reveal(is_declared);
    reveal(is_read);
    assert(super::scan::dotted_name_at(s, e + 1) == Ok::<(Seq<char>, int), FailureModel>(
        (binding, z),
    ));
    assert(native_at(s, p) matches Ok((d, _)) && d == (DeclModel::Native {
        name,
        io: true,
        type_sig: t,
        binding,
    }));
}

/// A type that is not named so does not begin with the word for effects.
proof fn lemma_not_io(s: Seq<char>, p: int, t: Flow9TypeModel)
    requires
        is_writable(t),
        text::occurs_at(s, flow9_text(t), p),
        closes(s, p + flow9_text(t).len()),
        t != Flow9TypeModel::Named("io"@),
        !(t matches Flow9TypeModel::Parameterized(n, _) && n == "io"@),
    ensures
        !keyword_at(s, p, "io"@),
{
    reveal_strlit("io");
    super::written::lemma_shape(t);
    let x = flow9_text(t);
    lemma_chars(s, x, p);
    assert forall|i: int| 0 <= i < "io"@.len() implies is_id_continue(#[trigger] "io"@[i]) by {}
    if keyword_at(s, p, "io"@) {
        lemma_chars(s, "io"@, p);
        assert(s[p + 0] == "io"@[0]);
        assert(s[p + 1] == "io"@[1]);
        match t {
            Flow9TypeModel::Named(name) => {
                assert(x =~= name);
                lemma_not_keyword(s, p, name, "io"@);
            },
            Flow9TypeModel::Parameterized(name, args) => {
                let rest = x.skip(name.len() as int);
                assert(x =~= name + rest);
                lemma_parts_occur(s, name, rest, p);
                lemma_chars(s, rest, p + name.len());
                assert(s[p + name.len() + 0] == rest[0]);
                lemma_not_keyword(s, p, name, "io"@);
            },
            Flow9TypeModel::TypeVar(name) => {
                assert(name[0] == '?');
                assert(s[p + 0] == x[0]);
            },
            _ => {
                assert(s[p + 0] == x[0]);
                if x.len() > 1 {
                    assert(s[p + 1] == x[1]);
                }
            },
        }
    }
}

// ─── Exports ──────────────────────────────────────────────────────────────────

/// What is exported is listed by its name, once, and kept as it is declared.
pub proof fn exports_are_listed(m: Flow9ModuleModel, d: DeclModel, name: Seq<char>)
    requires
        super::decls::declared_name(d) == Some(name),
    ensures
        with_export(m, d).declarations == m.declarations.push(d),
        with_export(m, d).exports.contains(name),
        m.exports.contains(name) ==> with_export(m, d).exports == m.exports,
        !m.exports.contains(name) ==> with_export(m, d).exports == m.exports.push(name),
        with_export(m, d).imports == m.imports,
        with_export(m, d).forbids == m.forbids,
{
    crate::data::lemma_with_name(m.exports, name);
    if !m.exports.contains(name) {
        assert(m.exports.push(name)[m.exports.len() as int] == name);
    }
}

/// Every declaration but an import is known by the name that it declares.
pub proof fn declarations_have_their_names(
    name: Seq<char>,
    t: Flow9TypeModel,
    args: Seq<FunArgModel>,
    types: Seq<ArgTypeModel>,
    variants: Seq<TypeNameModel>,
    exported: bool,
)
    ensures
        super::decls::declared_name(
            DeclModel::FunctionDecl { name, arg_types: types, return_type: t, exported },
        ) == Some(name),
        super::decls::declared_name(DeclModel::StructDecl { name, fields: args, exported }) == Some(
            name,
        ),
        super::decls::declared_name(
            DeclModel::VarDecl { name, type_annotation: t, has_init: true, exported },
        ) == Some(name),
        super::decls::declared_name(
            DeclModel::Union { name, type_params: Seq::empty(), variants },
        ) == Some(name),
        super::decls::declared_name(
            DeclModel::Function { name, args, return_type: Some(t), body: None, exported },
        ) == Some(name),
{
}

} // verus!

//! Types and arguments.
use vstd::prelude::*;

use super::scan::{
    at_keyword, blanks_end, byte_offset, char_at, count_bytes, expect_char, expected_char,
    failure_within, followed_by, id_at, is_narrow, keyword_at, lemma_id_at, lemma_runs, looking_at,
    mapped, marks_end, moved, parse_id, peek, peek_literal, read_view, skip_marks, skip_ws, Failure,
    FailureModel, Read,
};
use crate::data::append_item;
use crate::extractors::flow9_ast::{
    flow9_type_model_of_lists, ArgType, ArgTypeModel, Flow9Type, Flow9TypeModel, FunArg,
    FunArgModel, TypeName, TypeNameModel,
};
use crate::text;

verus! {

// ─── Types ────────────────────────────────────────────────────────────────────

/// The types that are keywords.
pub open spec fn keyword_type(s: Seq<char>, p: int) -> Option<(Flow9TypeModel, int)> {
    if keyword_at(s, p, "bool"@) {
        Some((Flow9TypeModel::Bool, blanks_end(s, p + 4)))
    } else if keyword_at(s, p, "int"@) {
        Some((Flow9TypeModel::Int, blanks_end(s, p + 3)))
    } else if keyword_at(s, p, "double"@) {
        Some((Flow9TypeModel::Double, blanks_end(s, p + 6)))
    } else if keyword_at(s, p, "string"@) {
        Some((Flow9TypeModel::Str, blanks_end(s, p + 6)))
    } else if keyword_at(s, p, "flow"@) {
        Some((Flow9TypeModel::Flow, blanks_end(s, p + 4)))
    } else if keyword_at(s, p, "void"@) {
        Some((Flow9TypeModel::Void, blanks_end(s, p + 4)))
    } else if keyword_at(s, p, "native"@) {
        Some((Flow9TypeModel::NativeType, blanks_end(s, p + 6)))
    } else {
        None
    }
}

/// A type that starts at `at` or behind blanks there.
pub open spec fn type_at(s: Seq<char>, at: int) -> Read<Flow9TypeModel>
    decreases s.len() - at, 1nat,
{
    let p = blanks_end(s, at);
    proof {
        lemma_runs(s, at);
    }
    if char_at(s, p) == Some('[') {
        match followed_by(type_at(s, p + 1), s, ']') {
            Ok((inner, n)) => Ok((Flow9TypeModel::Array(Box::new(inner)), blanks_end(s, n))),
            Err(e) => Err(e),
        }
    } else if char_at(s, p) == Some('(') {
        parenthesized_at(s, p + 1)
    } else if char_at(s, p) == Some('^') {
        mapped(type_at(s, p + 1), |t: Flow9TypeModel| Flow9TypeModel::Ref(Box::new(t)))
    } else if char_at(s, p) == Some('?') {
        let e = blanks_end(s, marks_end(s, p));
        Ok((Flow9TypeModel::TypeVar(text::trim(s.subrange(p, e))), e))
    } else if keyword_type(s, p) is Some {
        Ok(keyword_type(s, p)->0)
    } else if keyword_at(s, p, "ref"@) {
        if p + 3 <= s.len() {
            mapped(type_at(s, p + 3), |t: Flow9TypeModel| Flow9TypeModel::Ref(Box::new(t)))
        } else {
            Err(FailureModel::Stuck)
        }
    } else {
        match id_at(s, p) {
            Ok((name, n)) => if at < n <= s.len() {
                let q = blanks_end(s, n);
                proof {
                    lemma_runs(s, n);
                }
                if char_at(s, q) == Some('<') {
                    mapped(
                        type_list_at(s, q),
                        |ts: Seq<Flow9TypeModel>| Flow9TypeModel::Parameterized(name, ts),
                    )
                } else {
                    Ok((Flow9TypeModel::Named(name), q))
                }
            } else {
                Err(FailureModel::Stuck)
            },
            Err(e) => Err(e),
        }
    }
}

/// The type behind an arrow that stands at `at`, or `None` where none does.
pub open spec fn arrow_at(s: Seq<char>, at: int) -> Read<Option<Flow9TypeModel>>
    decreases s.len() - at, 2nat,
{
    match looking_at(s, at, "->"@) {
        Ok(true) => if at + 2 <= s.len() {
            mapped(type_at(s, at + 2), |t: Flow9TypeModel| Some(t))
        } else {
            Err(FailureModel::Stuck)
        },
        Ok(false) => Ok((None, at)),
        Err(e) => Err(e),
    }
}

/// What follows an opening parenthesis in a type: the arguments of a function type, or a
/// type by itself.
pub open spec fn parenthesized_at(s: Seq<char>, at: int) -> Read<Flow9TypeModel>
    decreases s.len() - at, 5nat,
{
    let p = blanks_end(s, at);
    proof {
        lemma_runs(s, at);
    }
    if char_at(s, p) == Some(')') {
        let q = blanks_end(s, p + 1);
        proof {
            lemma_runs(s, p + 1);
        }
        mapped(
            arrow_at(s, q),
            |ret: Option<Flow9TypeModel>|
                match ret {
                    Some(t) => Flow9TypeModel::FnType(Seq::empty(), Box::new(t)),
                    None => Flow9TypeModel::Void,
                },
        )
    } else {
        match function_type_at(s, p) {
            Ok(done) => Ok(done),
            Err(FailureModel::Stuck) => Err(FailureModel::Stuck),
            Err(FailureModel::Error(_, _)) => single_type_at(s, p),
        }
    }
}

/// A single type up to a closing parenthesis, with an optional comma behind it; the argument
/// of a function type if an arrow follows.
pub open spec fn single_type_at(s: Seq<char>, at: int) -> Read<Flow9TypeModel>
    decreases s.len() - at, 4nat,
{
    match type_at(s, at) {
        Ok((t, n)) => {
            let q = blanks_end(s, n);
            let end = if char_at(s, q) == Some(',') {
                q + 1
            } else {
                q
            };
            match expected_char(s, end, ')') {
                Ok(m) => {
                    let r = blanks_end(s, m);
                    if at < r <= s.len() {
                        mapped(
                            arrow_at(s, r),
                            |ret: Option<Flow9TypeModel>|
                                match ret {
                                    Some(u) => Flow9TypeModel::FnType(seq![t], Box::new(u)),
                                    None => t,
                                },
                        )
                    } else {
                        Err(FailureModel::Stuck)
                    }
                },
                Err(e) => Err(e),
            }
        },
        Err(e) => Err(e),
    }
}

/// The arguments of a function type, the parenthesis that closes them, and the type behind
/// an arrow.
pub open spec fn function_type_at(s: Seq<char>, at: int) -> Read<Flow9TypeModel>
    decreases s.len() - at, 4nat,
{
    let args = if char_at(s, at) == Some(')') {
        Ok((Seq::empty(), at))
    } else {
        match argument_type_at(s, at) {
            Ok((first, n)) => if at < n <= s.len() {
                argument_types_rest(s, n, seq![first])
            } else {
                Err(FailureModel::Stuck)
            },
            Err(e) => Err(e),
        }
    };
    match followed_by(args, s, ')') {
        Ok((params, n)) => {
            let q = blanks_end(s, n);
            if at < q <= s.len() {
                match arrow_at(s, q) {
                    Ok((Some(ret), m)) => Ok((Flow9TypeModel::FnType(params, Box::new(ret)), m)),
                    Ok((None, _)) => Err(no_arrow(s, q)),
                    Err(e) => Err(e),
                }
            } else {
                Err(FailureModel::Stuck)
            }
        },
        Err(e) => Err(e),
    }
}

pub open spec fn no_arrow(s: Seq<char>, at: int) -> FailureModel {
    FailureModel::Error("Expected '->' at position "@ + text::decimal(byte_offset(s, at)), at)
}

/// More arguments of a function type, each behind a comma; a comma before the closing
/// parenthesis is allowed.
pub open spec fn argument_types_rest(
    s: Seq<char>,
    at: int,
    done: Seq<Flow9TypeModel>,
) -> Read<Seq<Flow9TypeModel>>
    decreases s.len() - at, 0nat,
{
    if char_at(s, at) == Some(',') {
        let q = blanks_end(s, at + 1);
        proof {
            lemma_runs(s, at + 1);
        }
        if char_at(s, q) == Some(')') {
            Ok((done, q))
        } else {
            match argument_type_at(s, q) {
                Ok((t, n)) => if at < n <= s.len() {
                    argument_types_rest(s, n, done.push(t))
                } else {
                    Err(FailureModel::Stuck)
                },
                Err(e) => Err(e),
            }
        }
    } else {
        Ok((done, at))
    }
}

/// Whether an identifier and a colon stand at `p`: the position behind the colon.
pub open spec fn name_and_colon(s: Seq<char>, p: int) -> Read<Option<Seq<char>>> {
    match id_at(s, p) {
        Ok((name, n)) => if char_at(s, blanks_end(s, n)) == Some(':') {
            Ok((Some(name), blanks_end(s, n) + 1))
        } else {
            Ok((None, p))
        },
        Err(FailureModel::Stuck) => Err(FailureModel::Stuck),
        Err(FailureModel::Error(_, _)) => Ok((None, p)),
    }
}

pub proof fn lemma_name_and_colon(s: Seq<char>, p: int)
    requires
        0 <= p <= s.len(),
    ensures
        name_and_colon(s, p) matches Ok((name, n)) ==> p <= n <= s.len() && (name is Some ==> p
            < n) && (name is None ==> n == p),
{
    lemma_id_at(s, p);
    match id_at(s, p) {
        Ok((_, n)) => {
            lemma_runs(s, n);
        },
        Err(_) => {},
    }
}

/// The type of an argument, which may have a name.
pub open spec fn argument_type_at(s: Seq<char>, at: int) -> Read<Flow9TypeModel>
    decreases s.len() - at, 3nat,
{
    mapped(arg_type_at(s, at), |a: ArgTypeModel| a.type_)
}

/// An argument's type, with its name if it has one.
pub open spec fn arg_type_at(s: Seq<char>, at: int) -> Read<ArgTypeModel>
    decreases s.len() - at, 2nat,
{
    let p = blanks_end(s, at);
    proof {
        lemma_runs(s, at);
        if 0 <= p <= s.len() {
            lemma_name_and_colon(s, p);
        }
    }
    match name_and_colon(s, p) {
        Ok((name, n)) => if at <= n <= s.len() {
            mapped(type_at(s, n), |t: Flow9TypeModel| ArgTypeModel { name, type_: t })
        } else {
            Err(FailureModel::Stuck)
        },
        Err(e) => Err(e),
    }
}

/// Types between angle brackets, of which the first stands at `at`.
pub open spec fn type_list_at(s: Seq<char>, at: int) -> Read<Seq<Flow9TypeModel>>
    decreases s.len() - at, 0nat,
{
    match expected_char(s, at, '<') {
        Ok(p) => if at < p <= s.len() {
            match type_at(s, p) {
                Ok((first, n)) => if at < n <= s.len() {
                    match followed_by(types_rest(s, n, seq![first]), s, '>') {
                        Ok((ts, m)) => Ok((ts, blanks_end(s, m))),
                        Err(e) => Err(e),
                    }
                } else {
                    Err(FailureModel::Stuck)
                },
                Err(e) => Err(e),
            }
        } else {
            Err(FailureModel::Stuck)
        },
        Err(e) => Err(e),
    }
}

/// More types, each behind a comma.
pub open spec fn types_rest(s: Seq<char>, at: int, done: Seq<Flow9TypeModel>) -> Read<
    Seq<Flow9TypeModel>,
>
    decreases s.len() - at, 0nat,
{
    if char_at(s, at) == Some(',') {
        match type_at(s, at + 1) {
            Ok((t, n)) => if at < n <= s.len() {
                types_rest(s, n, done.push(t))
            } else {
                Err(FailureModel::Stuck)
            },
            Err(e) => Err(e),
        }
    } else {
        Ok((done, at))
    }
}

fn make_no_arrow(s: &[char], at: usize) -> (r: Failure)
    requires
        at <= s@.len(),
    ensures
        r.deep_view() == no_arrow(s@, at as int),
        r matches Failure::Error(_, p) ==> p == at,
{
    let mut message = "Expected '->' at position ".to_owned();
    message.append(text::decimal_string(count_bytes(s, at)).as_str());
    Failure::Error(message, at)
}

fn read_keyword_type(s: &[char], p: usize) -> (r: Option<(Flow9Type, usize)>)
    requires
        p <= s@.len(),
    ensures
        match r {
            Some((t, n)) => keyword_type(s@, p as int) == Some((t.deep_view(), n as int)) && p < n
                <= s@.len(),
            None => keyword_type(s@, p as int) is None,
        },
{
    proof {
        reveal_strlit("bool");
        reveal_strlit("int");
        reveal_strlit("double");
        reveal_strlit("string");
        reveal_strlit("flow");
        reveal_strlit("void");
        reveal_strlit("native");
    }
    let length: usize = s.len();
    if at_keyword(s, p, "bool") {
        Some((Flow9Type::Bool, skip_ws(s, p + 4)))
    } else if at_keyword(s, p, "int") {
        Some((Flow9Type::Int, skip_ws(s, p + 3)))
    } else if at_keyword(s, p, "double") {
        Some((Flow9Type::Double, skip_ws(s, p + 6)))
    } else if at_keyword(s, p, "string") {
        Some((Flow9Type::Str, skip_ws(s, p + 6)))
    } else if at_keyword(s, p, "flow") {
        Some((Flow9Type::Flow, skip_ws(s, p + 4)))
    } else if at_keyword(s, p, "void") {
        Some((Flow9Type::Void, skip_ws(s, p + 4)))
    } else if at_keyword(s, p, "native") {
        Some((Flow9Type::NativeType, skip_ws(s, p + 6)))
    } else {
        None
    }
}

pub fn parse_type(s: &[char], at: usize) -> (r: Result<(Flow9Type, usize), Failure>)
    requires
        at <= s@.len(),
    ensures
        read_view(r) == type_at(s@, at as int),
        moved(r, at as int, s@),
    decreases s@.len() - at, 1nat,
{
    let length: usize = s.len();
    let p = skip_ws(s, at);
    let next = peek(s, p);
    if next == Some('[') {
        let (inner, n) = parse_type(s, p + 1)?;
        let m = expect_char(s, n, ']')?;
        return Ok((Flow9Type::Array(Box::new(inner)), skip_ws(s, m)));
    }
    if next == Some('(') {
        return parse_type_fn_par(s, p + 1);
    }
    if next == Some('^') {
        let (inner, n) = parse_type(s, p + 1)?;
        return Ok((Flow9Type::Ref(Box::new(inner)), n));
    }
    if next == Some('?') {
        let marks = skip_marks(s, p);
        proof {
            lemma_runs(s@, p + 1);
        }
        let e = skip_ws(s, marks);
        let name = text::trim_chars(vstd::slice::slice_subrange(s, p, e));
        return Ok((Flow9Type::TypeVar(text::string_of(name)), e));
    }
    if let Some((t, n)) = read_keyword_type(s, p) {
        return Ok((t, n));
    }
    proof {
        reveal_strlit("ref");
    }
    if at_keyword(s, p, "ref") {
        let (inner, n) = parse_type(s, p + 3)?;
        return Ok((Flow9Type::Ref(Box::new(inner)), n));
    }
    let (name, n) = parse_id(s, p)?;
    let q = skip_ws(s, n);
    if peek(s, q) == Some('<') {
        let (types, m) = parse_typelist(s, q)?;
        let t = Flow9Type::Parameterized(name, types);
        proof {
            flow9_type_model_of_lists(t);
        }
        return Ok((t, m));
    }
    Ok((Flow9Type::Named(name), q))
}

fn parse_arrow(s: &[char], at: usize) -> (r: Result<(Option<Flow9Type>, usize), Failure>)
    requires
        at <= s@.len(),
    ensures
        read_view(r) == arrow_at(s@, at as int),
        match r {
            Ok((_, n)) => at <= n <= s@.len(),
            Err(e) => failure_within(e, at as int, s@),
        },
    decreases s@.len() - at, 2nat,
{
    proof {
        reveal_strlit("->");
    }
    let length: usize = s.len();
    let arrow = peek_literal(s, at, "->")?;
    if arrow {
        let (t, n) = parse_type(s, at + 2)?;
        Ok((Some(t), n))
    } else {
        Ok((None, at))
    }
}

fn make_fn_type(params: Vec<Flow9Type>, ret: Flow9Type) -> (r: Flow9Type)
    ensures
        r.deep_view() == Flow9TypeModel::FnType(params.deep_view(), Box::new(ret.deep_view())),
{
    let r = Flow9Type::FnType(params, Box::new(ret));
    proof {
        flow9_type_model_of_lists(r);
    }
    r
}

fn parse_type_fn_par(s: &[char], at: usize) -> (r: Result<(Flow9Type, usize), Failure>)
    requires
        at <= s@.len(),
    ensures
        read_view(r) == parenthesized_at(s@, at as int),
        moved(r, at as int, s@),
    decreases s@.len() - at, 5nat,
{
    let p = skip_ws(s, at);
    if peek(s, p) == Some(')') {
        let q = skip_ws(s, p + 1);
        let (ret, n) = parse_arrow(s, q)?;
        return match ret {
            Some(t) => {
                let none: Vec<Flow9Type> = Vec::new();
                assert(none.deep_view() =~= Seq::empty());
                Ok((make_fn_type(none, t), n))
            },
            None => Ok((Flow9Type::Void, n)),
        };
    }
    match try_parse_fn_type(s, p) {
        Ok(done) => Ok(done),
        Err(Failure::Stuck) => Err(Failure::Stuck),
        Err(Failure::Error(_, _)) => parse_single_type(s, p),
    }
}

fn parse_single_type(s: &[char], at: usize) -> (r: Result<(Flow9Type, usize), Failure>)
    requires
        at <= s@.len(),
    ensures
        read_view(r) == single_type_at(s@, at as int),
        moved(r, at as int, s@),
    decreases s@.len() - at, 4nat,
{
    let (t, n) = parse_type(s, at)?;
    let q = skip_ws(s, n);
    let end: usize = if peek(s, q) == Some(',') {
        q + 1
    } else {
        q
    };
    let m = expect_char(s, end, ')')?;
    let r = skip_ws(s, m);
    let (ret, last) = parse_arrow(s, r)?;
    match ret {
        Some(u) => {
            let mut one: Vec<Flow9Type> = Vec::new();
            let ghost model = t.deep_view();
            one.push(t);
            assert(one.deep_view() =~= seq![model]);
            Ok((make_fn_type(one, u), last))
        },
        None => Ok((t, last)),
    }
}

fn try_parse_fn_type(s: &[char], at: usize) -> (r: Result<(Flow9Type, usize), Failure>)
    requires
        at <= s@.len(),
    ensures
        read_view(r) == function_type_at(s@, at as int),
        moved(r, at as int, s@),
    decreases s@.len() - at, 4nat,
{
    let (params, n): (Vec<Flow9Type>, usize) = if peek(s, at) == Some(')') {
        let none: Vec<Flow9Type> = Vec::new();
        assert(none.deep_view() =~= Seq::empty());
        (none, at)
    } else {
        let (first, n) = parse_argtype_type_only(s, at)?;
        parse_argument_types(s, n, first)?
    };
    let m = expect_char(s, n, ')')?;
    let q = skip_ws(s, m);
    let (ret, last) = parse_arrow(s, q)?;
    match ret {
        Some(t) => Ok((make_fn_type(params, t), last)),
        None => Err(make_no_arrow(s, q)),
    }
}

fn parse_argument_types(s: &[char], from: usize, first: Flow9Type) -> (r: Result<
    (Vec<Flow9Type>, usize),
    Failure,
>)
    requires
        from <= s@.len(),
    ensures
        read_view(r) == argument_types_rest(s@, from as int, seq![first.deep_view()]),
        match r {
            Ok((_, n)) => from <= n <= s@.len(),
            Err(e) => failure_within(e, from as int, s@),
        },
    decreases s@.len() - from, 0nat,
{
    let mut types: Vec<Flow9Type> = Vec::new();
    let ghost model = first.deep_view();
    types.push(first);
    assert(types.deep_view() =~= seq![model]);
    let mut at: usize = from;
    while peek(s, at) == Some(',')
        invariant
            from <= at <= s@.len(),
            model == first.deep_view(),
            argument_types_rest(s@, from as int, seq![model]) == argument_types_rest(
                s@,
                at as int,
                types.deep_view(),
            ),
        decreases s@.len() - at,
    {
        let q = skip_ws(s, at + 1);
        if peek(s, q) == Some(')') {
            return Ok((types, q));
        }
        let (t, n) = parse_argtype_type_only(s, q)?;
        append_item(&mut types, t);
        at = n;
    }
    Ok((types, at))
}

fn parse_name_and_colon(s: &[char], p: usize) -> (r: Result<(Option<String>, usize), Failure>)
    requires
        p <= s@.len(),
    ensures
        read_view(r) == name_and_colon(s@, p as int),
        match r {
            Ok((_, n)) => p <= n <= s@.len(),
            Err(e) => e is Stuck && !is_narrow(s@),
        },
{
    match parse_id(s, p) {
        Ok((name, n)) => {
            let q = skip_ws(s, n);
            if peek(s, q) == Some(':') {
                Ok((Some(name), q + 1))
            } else {
                Ok((None, p))
            }
        },
        Err(Failure::Stuck) => Err(Failure::Stuck),
        Err(Failure::Error(_, _)) => Ok((None, p)),
    }
}

fn parse_argtype_type_only(s: &[char], at: usize) -> (r: Result<(Flow9Type, usize), Failure>)
    requires
        at <= s@.len(),
    ensures
        read_view(r) == argument_type_at(s@, at as int),
        moved(r, at as int, s@),
    decreases s@.len() - at, 3nat,
{
    let (a, n) = parse_argtype(s, at)?;
    Ok((a.type_, n))
}

pub fn parse_argtype(s: &[char], at: usize) -> (r: Result<(ArgType, usize), Failure>)
    requires
        at <= s@.len(),
    ensures
        read_view(r) == arg_type_at(s@, at as int),
        moved(r, at as int, s@),
    decreases s@.len() - at, 2nat,
{
    let p = skip_ws(s, at);
    let (name, n) = parse_name_and_colon(s, p)?;
    let (t, m) = parse_type(s, n)?;
    Ok((ArgType { name, type_: t }, m))
}

pub fn parse_typelist(s: &[char], at: usize) -> (r: Result<(Vec<Flow9Type>, usize), Failure>)
    requires
        at <= s@.len(),
    ensures
        read_view(r) == type_list_at(s@, at as int),
        moved(r, at as int, s@),
    decreases s@.len() - at, 0nat,
{
    let p = expect_char(s, at, '<')?;
    let (first, n) = parse_type(s, p)?;
    let ghost model = first.deep_view();
    let mut types: Vec<Flow9Type> = Vec::new();
    types.push(first);
    assert(types.deep_view() =~= seq![model]);
    let mut i: usize = n;
    while peek(s, i) == Some(',')
        invariant
            at < n <= i <= s@.len(),
            types_rest(s@, n as int, seq![model]) == types_rest(s@, i as int, types.deep_view()),
            type_list_at(s@, at as int) == (match followed_by(
                types_rest(s@, n as int, seq![model]),
                s@,
                '>',
            ) {
                Ok((ts, m)) => Ok((ts, blanks_end(s@, m))),
                Err(e) => Err(e),
            }),
        decreases s@.len() - i,
    {
        let (t, m) = parse_type(s, i + 1)?;
        append_item(&mut types, t);
        i = m;
    }
    let m = expect_char(s, i, '>')?;
    Ok((types, skip_ws(s, m)))
}

// ─── Names and arguments ──────────────────────────────────────────────────────

/// The name of a union variant, with its type parameters.
pub open spec fn type_name_at(s: Seq<char>, at: int) -> Read<TypeNameModel> {
    match id_at(s, at) {
        Ok((name, n)) => {
            let q = blanks_end(s, n);
            if char_at(s, q) == Some('<') {
                mapped(
                    type_list_at(s, q),
                    |ts: Seq<Flow9TypeModel>| TypeNameModel { name, type_params: ts },
                )
            } else {
                Ok(((TypeNameModel { name, type_params: Seq::empty() }), q))
            }
        },
        Err(e) => Err(e),
    }
}

/// More variants, each behind a comma.
pub open spec fn type_names_rest(s: Seq<char>, at: int, done: Seq<TypeNameModel>) -> Read<
    Seq<TypeNameModel>,
>
    decreases s.len() - at,
{
    let p = blanks_end(s, at);
    proof {
        lemma_runs(s, at);
    }
    if char_at(s, p) == Some(',') {
        match type_name_at(s, p + 1) {
            Ok((t, n)) => if at < n <= s.len() {
                type_names_rest(s, n, done.push(t))
            } else {
                Err(FailureModel::Stuck)
            },
            Err(e) => Err(e),
        }
    } else {
        Ok((done, p))
    }
}

/// The variants of a union.
pub open spec fn type_names_at(s: Seq<char>, at: int) -> Read<Seq<TypeNameModel>> {
    match type_name_at(s, at) {
        Ok((first, n)) => type_names_rest(s, n, seq![first]),
        Err(e) => Err(e),
    }
}

fn parse_typename(s: &[char], at: usize) -> (r: Result<(TypeName, usize), Failure>)
    requires
        at <= s@.len(),
    ensures
        read_view(r) == type_name_at(s@, at as int),
        moved(r, at as int, s@),
{
    let (name, n) = parse_id(s, at)?;
    let q = skip_ws(s, n);
    if peek(s, q) == Some('<') {
        let (type_params, m) = parse_typelist(s, q)?;
        Ok((TypeName { name, type_params }, m))
    } else {
        let type_params: Vec<Flow9Type> = Vec::new();
        assert(type_params.deep_view() =~= Seq::empty());
        Ok((TypeName { name, type_params }, q))
    }
}

pub fn parse_typenames(s: &[char], at: usize) -> (r: Result<(Vec<TypeName>, usize), Failure>)
    requires
        at <= s@.len(),
    ensures
        read_view(r) == type_names_at(s@, at as int),
        moved(r, at as int, s@),
{
    let (first, n) = parse_typename(s, at)?;
    let ghost model = first.deep_view();
    let mut names: Vec<TypeName> = Vec::new();
    names.push(first);
    assert(names.deep_view() =~= seq![model]);
    let mut i: usize = n;
    loop
        invariant
            at < i <= s@.len(),
            type_names_at(s@, at as int) == type_names_rest(s@, i as int, names.deep_view()),
        decreases s@.len() - i,
    {
        let p = skip_ws(s, i);
        if peek(s, p) != Some(',') {
            return Ok((names, p));
        }
        let (t, m) = parse_typename(s, p + 1)?;
        append_item(&mut names, t);
        i = m;
    }
}

/// An optional return type: `None` where no arrow stands at `at`.
pub fn parse_optional_return_type(s: &[char], at: usize) -> (r: Result<
    (Option<Flow9Type>, usize),
    Failure,
>)
    requires
        at <= s@.len(),
    ensures
        read_view(r) == arrow_at(s@, at as int),
        match r {
            Ok((_, n)) => at <= n <= s@.len(),
            Err(e) => failure_within(e, at as int, s@),
        },
{
    parse_arrow(s, at)
}

/// A function argument: a name, with a type behind a colon if it has one, and `mutable`
/// before it if it is that.
pub open spec fn fun_arg_at(s: Seq<char>, at: int) -> Read<FunArgModel> {
    let p = blanks_end(s, at);
    let mutable = keyword_at(s, p, "mutable"@);
    let start = if mutable {
        p + 7
    } else {
        p
    };
    match id_at(s, start) {
        Ok((name, n)) => {
            let q = blanks_end(s, n);
            if char_at(s, q) == Some(':') {
                mapped(
                    type_at(s, q + 1),
                    |t: Flow9TypeModel| FunArgModel { mutable, name, type_annotation: Some(t) },
                )
            } else {
                Ok(((FunArgModel { mutable, name, type_annotation: None }), q))
            }
        },
        Err(e) => Err(e),
    }
}

/// More arguments, each behind a comma; a comma before the closing parenthesis is allowed.
pub open spec fn fun_args_rest(s: Seq<char>, at: int, done: Seq<FunArgModel>) -> Read<
    Seq<FunArgModel>,
>
    decreases s.len() - at,
{
    let p = blanks_end(s, at);
    proof {
        lemma_runs(s, at);
    }
    if char_at(s, p) == Some(',') {
        let q = blanks_end(s, p + 1);
        if char_at(s, q) == Some(')') {
            Ok((done, q))
        } else {
            match fun_arg_at(s, q) {
                Ok((a, n)) => if at < n <= s.len() {
                    fun_args_rest(s, n, done.push(a))
                } else {
                    Err(FailureModel::Stuck)
                },
                Err(e) => Err(e),
            }
        }
    } else {
        Ok((done, p))
    }
}

/// The arguments of a function.
pub open spec fn fun_args_at(s: Seq<char>, at: int) -> Read<Seq<FunArgModel>> {
    match fun_arg_at(s, at) {
        Ok((first, n)) => fun_args_rest(s, n, seq![first]),
        Err(e) => Err(e),
    }
}

fn parse_funarg(s: &[char], at: usize) -> (r: Result<(FunArg, usize), Failure>)
    requires
        at <= s@.len(),
    ensures
        read_view(r) == fun_arg_at(s@, at as int),
        moved(r, at as int, s@),
{
    proof {
        reveal_strlit("mutable");
    }
    let length: usize = s.len();
    let p = skip_ws(s, at);
    let mutable = at_keyword(s, p, "mutable");
    let start: usize = if mutable {
        p + 7
    } else {
        p
    };
    let (name, n) = parse_id(s, start)?;
    let q = skip_ws(s, n);
    if peek(s, q) == Some(':') {
        let (t, m) = parse_type(s, q + 1)?;
        Ok((FunArg { mutable, name, type_annotation: Some(t) }, m))
    } else {
        Ok((FunArg { mutable, name, type_annotation: None }, q))
    }
}

pub fn parse_funargs(s: &[char], at: usize) -> (r: Result<(Vec<FunArg>, usize), Failure>)
    requires
        at <= s@.len(),
    ensures
        read_view(r) == fun_args_at(s@, at as int),
        moved(r, at as int, s@),
{
    let (first, n) = parse_funarg(s, at)?;
    let ghost model = first.deep_view();
    let mut args: Vec<FunArg> = Vec::new();
    args.push(first);
    assert(args.deep_view() =~= seq![model]);
    let mut i: usize = n;
    loop
        invariant
            at < i <= s@.len(),
            fun_args_at(s@, at as int) == fun_args_rest(s@, i as int, args.deep_view()),
        decreases s@.len() - i,
    {
        let p = skip_ws(s, i);
        if peek(s, p) != Some(',') {
            return Ok((args, p));
        }
        let q = skip_ws(s, p + 1);
        if peek(s, q) == Some(')') {
            return Ok((args, q));
        }
        let (a, m) = parse_funarg(s, q)?;
        append_item(&mut args, a);
        i = m;
    }
}

/// More argument types, each behind a comma; a comma before the closing parenthesis is
/// allowed.
pub open spec fn arg_types_rest(s: Seq<char>, at: int, done: Seq<ArgTypeModel>) -> Read<
    Seq<ArgTypeModel>,
>
    decreases s.len() - at,
{
    let p = blanks_end(s, at);
    proof {
        lemma_runs(s, at);
    }
    if char_at(s, p) == Some(',') {
        let q = blanks_end(s, p + 1);
        if char_at(s, q) == Some(')') {
            Ok((done, q))
        } else {
            match arg_type_at(s, q) {
                Ok((a, n)) => if at < n <= s.len() {
                    arg_types_rest(s, n, done.push(a))
                } else {
                    Err(FailureModel::Stuck)
                },
                Err(e) => Err(e),
            }
        }
    } else {
        Ok((done, p))
    }
}

/// The argument types of a function declaration.
pub open spec fn arg_types_at(s: Seq<char>, at: int) -> Read<Seq<ArgTypeModel>> {
    match arg_type_at(s, at) {
        Ok((first, n)) => arg_types_rest(s, n, seq![first]),
        Err(e) => Err(e),
    }
}

pub fn parse_argtypes(s: &[char], at: usize) -> (r: Result<(Vec<ArgType>, usize), Failure>)
    requires
        at <= s@.len(),
    ensures
        read_view(r) == arg_types_at(s@, at as int),
        moved(r, at as int, s@),
{
    let (first, n) = parse_argtype(s, at)?;
    let ghost model = first.deep_view();
    let mut args: Vec<ArgType> = Vec::new();
    args.push(first);
    assert(args.deep_view() =~= seq![model]);
    let mut i: usize = n;
    loop
        invariant
            at < i <= s@.len(),
            arg_types_at(s@, at as int) == arg_types_rest(s@, i as int, args.deep_view()),
        decreases s@.len() - i,
    {
        let p = skip_ws(s, i);
        if peek(s, p) != Some(',') {
            return Ok((args, p));
        }
        let q = skip_ws(s, p + 1);
        if peek(s, q) == Some(')') {
            return Ok((args, q));
        }
        let (a, m) = parse_argtype(s, q)?;
        append_item(&mut args, a);
        i = m;
    }
}

} // verus!

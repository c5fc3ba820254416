//! Types that are read back as they were written.
use vstd::prelude::*;

use super::ast::{ParseErrorModel, TroubleModel};
use super::type_reader::{
    angle_from, fn_parts, lemma_type_args, type_args, type_of, type_reading, types_of,
};
use crate::text;
use crate::text::{nesting_from, nesting_step, Nesting};
use crate::types::{type_text, type_text_of_lists, type_texts, TypeReprModel};

verus! {

// ─── Readable types ───────────────────────────────────────────────────────────

/// Whether a character is no blank and means nothing of its own in a type.
pub open spec fn is_name_char(c: char) -> bool {
    &&& !text::is_whitespace(c)
    &&& c != '<' && c != '>' && c != '(' && c != ')' && c != '[' && c != ']'
    &&& c != ',' && c != ';' && c != '&' && c != '-'
}

/// Whether a text is the name of a type. Every identifier other than `_` is one, and so is
/// every path of identifiers.
pub open spec fn is_type_name(name: Seq<char>) -> bool {
    &&& name.len() > 0
    &&& name != "_"@
    &&& forall|i: int| 0 <= i < name.len() ==> is_name_char(#[trigger] name[i])
}

/// Whether no array stands in a type.
pub open spec fn is_array_free(t: TypeReprModel) -> bool
    decreases t,
{
    match t {
        TypeReprModel::Applied(base, args) => are_array_free(args),
        TypeReprModel::Tuple(elems) => are_array_free(elems),
        TypeReprModel::Reference { mutable, inner } => is_array_free(*inner),
        TypeReprModel::Slice(inner) => is_array_free(*inner),
        TypeReprModel::Array(inner, size) => false,
        TypeReprModel::FnPointer { params, ret } => are_array_free(params) && is_array_free(*ret),
        _ => true,
    }
}

pub open spec fn are_array_free(ts: Seq<TypeReprModel>) -> bool
    decreases ts,
{
    forall|i: int| 0 <= i < ts.len() ==> is_array_free(#[trigger] ts[i])
}

/// Whether a type is built from types with names. A tuple has members, only types with a name
/// have arguments, and no array stands in a slice.
pub open spec fn is_readable(t: TypeReprModel) -> bool
    decreases t,
{
    match t {
        TypeReprModel::Named(name) => is_type_name(name),
        TypeReprModel::Applied(base, args) => (*base matches TypeReprModel::Named(name)
            && is_type_name(name)) && are_readable(args),
        TypeReprModel::Tuple(elems) => elems.len() > 0 && are_readable(elems),
        TypeReprModel::Reference { mutable, inner } => is_readable(*inner),
        TypeReprModel::Slice(inner) => is_readable(*inner) && is_array_free(*inner),
        TypeReprModel::Array(inner, size) => is_readable(*inner),
        TypeReprModel::FnPointer { params, ret } => are_readable(params) && is_readable(*ret),
        TypeReprModel::Unit => true,
        TypeReprModel::Infer => true,
    }
}

pub open spec fn are_readable(ts: Seq<TypeReprModel>) -> bool
    decreases ts,
{
    forall|i: int| 0 <= i < ts.len() ==> is_readable(#[trigger] ts[i])
}

/// How the first `k` types of a list are written, with commas between them.
pub open spec fn list_text(ts: Seq<TypeReprModel>, k: int) -> Seq<char> {
    text::join(type_texts(ts).take(k), ", "@)
}

proof fn lemma_list_text(ts: Seq<TypeReprModel>, k: int)
    requires
        0 <= k <= ts.len(),
    ensures
        type_texts(ts).len() == ts.len(),
        k == 0 ==> list_text(ts, k) == Seq::<char>::empty(),
        k == 1 ==> list_text(ts, k) == type_text(ts[0]),
        k > 1 ==> list_text(ts, k) == list_text(ts, k - 1) + seq![',', ' '] + type_text(ts[k - 1]),
        list_text(ts, ts.len() as int) == text::join(type_texts(ts), ", "@),
{
    let texts = type_texts(ts);
    reveal_with_fuel(type_texts, 2);
    assert(texts.take(ts.len() as int) =~= texts);
    reveal_strlit(", ");
    assert(", "@ =~= seq![',', ' ']);
    if k > 0 {
        assert(texts[k - 1] == type_text(ts[k - 1]));
        assert(texts.take(k).last() == texts[k - 1]);
        assert(texts.take(k)[0] == texts[0]);
        assert(texts.take(k).drop_last() =~= texts.take(k - 1));
    }
}

/// How a type is written, character by character.
pub open spec fn shape(t: TypeReprModel) -> Seq<char> {
    match t {
        TypeReprModel::Named(name) => name,
        TypeReprModel::Applied(base, args) => type_text(*base) + seq!['<'] + list_text(
            args,
            args.len() as int,
        ) + seq!['>'],
        TypeReprModel::Tuple(elems) => seq!['('] + list_text(elems, elems.len() as int) + seq![')'],
        TypeReprModel::Reference { mutable, inner } => if mutable {
            seq!['&', 'm', 'u', 't', ' '] + type_text(*inner)
        } else {
            seq!['&'] + type_text(*inner)
        },
        TypeReprModel::Slice(inner) => seq!['['] + type_text(*inner) + seq![']'],
        TypeReprModel::Array(inner, size) => seq!['['] + type_text(*inner) + seq![';', ' ']
            + text::decimal(size as nat) + seq![']'],
        TypeReprModel::FnPointer { params, ret } => seq!['f', 'n', '('] + list_text(
            params,
            params.len() as int,
        ) + seq![')', ' ', '-', '>', ' '] + type_text(*ret),
        TypeReprModel::Unit => seq!['(', ')'],
        TypeReprModel::Infer => seq!['_'],
    }
}

proof fn lemma_shape(t: TypeReprModel)
    ensures
        type_text(t) == shape(t),
{
    type_text_of_lists(t);
    match t {
        TypeReprModel::Applied(base, args) => {
            lemma_list_text(args, 0);
            reveal_strlit("<");
            reveal_strlit(">");
            assert("<"@ =~= seq!['<']);
            assert(">"@ =~= seq!['>']);
        },
        TypeReprModel::Tuple(elems) => {
            lemma_list_text(elems, 0);
            reveal_strlit("(");
            reveal_strlit(")");
            assert("("@ =~= seq!['(']);
            assert(")"@ =~= seq![')']);
        },
        TypeReprModel::Reference { mutable, inner } => {
            reveal_strlit("&mut ");
            reveal_strlit("&");
            assert("&mut "@ =~= seq!['&', 'm', 'u', 't', ' ']);
            assert("&"@ =~= seq!['&']);
        },
        TypeReprModel::Slice(inner) => {
            reveal_strlit("[");
            reveal_strlit("]");
            assert("["@ =~= seq!['[']);
            assert("]"@ =~= seq![']']);
        },
        TypeReprModel::Array(inner, size) => {
            reveal_strlit("[");
            reveal_strlit("; ");
            reveal_strlit("]");
            assert("["@ =~= seq!['[']);
            assert("; "@ =~= seq![';', ' ']);
            assert("]"@ =~= seq![']']);
        },
        TypeReprModel::FnPointer { params, ret } => {
            lemma_list_text(params, 0);
            reveal_strlit("fn(");
            reveal_strlit(") -> ");
            assert("fn("@ =~= seq!['f', 'n', '(']);
            assert(") -> "@ =~= seq![')', ' ', '-', '>', ' ']);
        },
        TypeReprModel::Unit => {
            reveal_strlit("()");
            assert("()"@ =~= seq!['(', ')']);
        },
        TypeReprModel::Infer => {
            reveal_strlit("_");
            assert("_"@ =~= seq!['_']);
        },
        _ => {},
    }
}

/// The digits of a number are digits, and stand for it.
proof fn lemma_decimal(n: nat)
    ensures
        text::decimal(n).len() > 0,
        text::all_digits(text::decimal(n)),
        text::digits_value(text::decimal(n)) == n,
    decreases n,
{
    let s = text::decimal(n);
    if n < 10 {
        assert(s.drop_last() =~= Seq::empty());
        assert(text::digits_value(s.drop_last()) == 0);
    } else {
        lemma_decimal(n / 10);
        assert(s.drop_last() =~= text::decimal(n / 10));
        assert forall|i: int| 0 <= i < s.len() implies text::is_digit(#[trigger] s[i]) by {
            if i < s.len() - 1 {
                assert(s[i] == text::decimal(n / 10)[i]);
            }
        }
    }
}

/// A written type is not empty, no blank surrounds it, and it does not start like the end of
/// an arrow or like `mut`.
proof fn lemma_edges(t: TypeReprModel)
    requires
        is_readable(t),
    ensures
        ({
            let s = type_text(t);
            &&& s.len() > 0
            &&& !text::is_whitespace(s[0])
            &&& !text::is_whitespace(s.last())
            &&& s[0] != '>'
            &&& s.last() != '-'
            &&& !(s.len() >= 4 && s[0] == 'm' && s[1] == 'u' && s[2] == 't' && s[3] == ' ')
        }),
    decreases t,
{
    lemma_shape(t);
    let s = type_text(t);
    match t {
        TypeReprModel::Named(name) => {
            assert(is_name_char(name[0]));
            assert(is_name_char(name[name.len() - 1]));
            if s.len() >= 4 {
                assert(is_name_char(name[3]));
            }
        },
        TypeReprModel::Applied(base, args) => {
            lemma_shape(*base);
            let name = type_text(*base);
            assert(s[0] == name[0] && is_name_char(name[0]));
            assert(s.last() == '>');
            if name.len() >= 4 {
                assert(s[3] == name[3] && is_name_char(name[3]));
            } else {
                assert(s[name.len() as int] == '<');
            }
        },
        TypeReprModel::Reference { mutable, inner } => {
            lemma_edges(*inner);
            assert(s.last() == type_text(*inner).last());
            assert(s[0] == '&');
        },
        TypeReprModel::FnPointer { params, ret } => {
            lemma_edges(*ret);
            assert(s.last() == type_text(*ret).last());
            assert(s[0] == 'f');
        },
        _ => {},
    }
}

// ─── Splitting lists ──────────────────────────────────────────────────────────

/// Splitting behind a text in which nothing is split.
pub open spec fn grown(n: Nesting, x: Seq<char>) -> Nesting {
    Nesting {
        pieces: n.pieces.drop_last().push(n.pieces.last() + x),
        dash: if x.len() == 0 {
            n.dash
        } else {
            x.last() == '-'
        },
        ..n
    }
}

pub open spec fn is_settled(n: Nesting) -> bool {
    n.pieces.len() > 0 && n.angle >= 0 && n.paren >= 0 && n.bracket >= 0
}

/// Whether some bracket is open.
pub open spec fn is_nested(n: Nesting) -> bool {
    is_settled(n) && n.angle + n.paren + n.bracket > 0
}

proof fn lemma_grown(n: Nesting, a: Seq<char>, b: Seq<char>)
    requires
        n.pieces.len() > 0,
    ensures
        grown(grown(n, a), b) == grown(n, a + b),
        is_settled(n) ==> is_settled(grown(n, a)),
        is_nested(n) ==> is_nested(grown(n, a)),
{
    let p = n.pieces.drop_last();
    let last = n.pieces.last();
    assert(p.push(last + a).drop_last() =~= p);
    assert(last + a + b =~= last + (a + b));
    assert(b.len() == 0 ==> a + b =~= a);
    assert(grown(grown(n, a), b).pieces =~= grown(n, a + b).pieces);
}

proof fn lemma_nesting_concat(n: Nesting, a: Seq<char>, b: Seq<char>)
    ensures
        nesting_from(n, a + b, ',') == nesting_from(nesting_from(n, a, ','), b, ','),
    decreases b.len(),
{
    if b.len() == 0 {
        assert(a + b =~= a);
    } else {
        lemma_nesting_concat(n, a, b.drop_last());
        assert((a + b).drop_last() =~= a + b.drop_last());
        assert((a + b).last() == b.last());
    }
}

proof fn lemma_one(n: Nesting, c: char)
    requires
        n.pieces.len() > 0,
    ensures
        nesting_from(n, seq![c], ',') == nesting_step(n, c, ','),
        nesting_step(n, c, ',').pieces.len() > 0,
        is_name_char(c) || c == ' ' || c == ';' || c == '&' || c == '-' || (c == ',' && is_nested(n))
            || (c == '>' && n.dash) ==> nesting_from(n, seq![c], ',') == grown(n, seq![c]),
        c == '(' ==> nesting_from(n, seq![c], ',') == (Nesting {
            paren: n.paren + 1,
            ..grown(n, seq![c])
        }),
        c == ')' ==> nesting_from(n, seq![c], ',') == (Nesting {
            paren: n.paren - 1,
            ..grown(n, seq![c])
        }),
        c == '<' ==> nesting_from(n, seq![c], ',') == (Nesting {
            angle: n.angle + 1,
            ..grown(n, seq![c])
        }),
        c == '>' && !n.dash ==> nesting_from(n, seq![c], ',') == (Nesting {
            angle: n.angle - 1,
            ..grown(n, seq![c])
        }),
        c == '[' ==> nesting_from(n, seq![c], ',') == (Nesting {
            bracket: n.bracket + 1,
            ..grown(n, seq![c])
        }),
        c == ']' ==> nesting_from(n, seq![c], ',') == (Nesting {
            bracket: n.bracket - 1,
            ..grown(n, seq![c])
        }),
{
    let one = seq![c];
    assert(one.drop_last() =~= Seq::<char>::empty());
    assert(nesting_from(n, one.drop_last(), ',') == n);
    assert(one.last() == c);
    assert(n.pieces.last().push(c) =~= n.pieces.last() + one);
}

/// Nothing is split in a text of plain characters, blanks and semicolons.
proof fn lemma_plain(n: Nesting, x: Seq<char>)
    requires
        n.pieces.len() > 0,
        forall|i: int|
            0 <= i < x.len() ==> is_name_char(#[trigger] x[i]) || x[i] == ' ' || x[i] == ';' || x[i]
                == '&',
    ensures
        nesting_from(n, x, ',') == grown(n, x),
    decreases x.len(),
{
    if x.len() == 0 {
        assert(grown(n, x).pieces =~= n.pieces);
    } else {
        let front = x.drop_last();
        lemma_plain(n, front);
        assert(x =~= front + seq![x.last()]);
        assert(x.last() == x[x.len() - 1]);
        lemma_nesting_concat(n, front, seq![x.last()]);
        lemma_one(grown(n, front), x.last());
        lemma_grown(n, front, seq![x.last()]);
    }
}

/// Nothing is split in a bracketed text in which nothing is split, if it is nested.
proof fn lemma_bracketed(n: Nesting, open: char, x: Seq<char>, close: char)
    requires
        is_settled(n),
        (open == '(' && close == ')') || (open == '<' && close == '>') || (open == '[' && close
            == ']'),
        x.len() > 0 ==> x.last() != '-',
        nesting_from(nesting_from(n, seq![open], ','), x, ',') == grown(
            nesting_from(n, seq![open], ','),
            x,
        ),
    ensures
        nesting_from(n, seq![open] + x + seq![close], ',') == grown(
            n,
            seq![open] + x + seq![close],
        ),
{
    lemma_one(n, open);
    let inside = nesting_from(n, seq![open], ',');
    lemma_nesting_concat(n, seq![open], x);
    lemma_nesting_concat(n, seq![open] + x, seq![close]);
    lemma_grown(inside, x, seq![close]);
    lemma_one(grown(inside, x), close);
    lemma_grown(n, seq![open], x);
    lemma_grown(n, seq![open] + x, seq![close]);
    let after = nesting_from(n, seq![open] + x + seq![close], ',');
    let all = seq![open] + x + seq![close];
    assert(after.pieces == grown(n, all).pieces);
    assert(after.dash == grown(n, all).dash);
    assert(after =~= grown(n, all));
}

proof fn lemma_then(n: Nesting, a: Seq<char>, b: Seq<char>)
    requires
        n.pieces.len() > 0,
        nesting_from(n, a, ',') == grown(n, a),
        nesting_from(grown(n, a), b, ',') == grown(grown(n, a), b),
    ensures
        nesting_from(n, a + b, ',') == grown(n, a + b),
{
    lemma_nesting_concat(n, a, b);
    lemma_grown(n, a, b);
}

/// Nothing is split in a written type.
proof fn lemma_unsplit(t: TypeReprModel, n: Nesting)
    requires
        is_readable(t),
        is_settled(n),
    ensures
        nesting_from(n, type_text(t), ',') == grown(n, type_text(t)),
    decreases t, 0int,
{
    lemma_shape(t);
    match t {
        TypeReprModel::Named(name) => {
            lemma_plain(n, name);
        },
        TypeReprModel::Applied(base, args) => {
            lemma_shape(*base);
            let name = type_text(*base);
            let list = list_text(args, args.len() as int);
            lemma_plain(n, name);
            lemma_grown(n, name, list);
            let behind = grown(n, name);
            lemma_one(behind, '<');
            lemma_grown(behind, seq!['<'], list);
            lemma_unsplit_list(args, args.len() as int, nesting_from(behind, seq!['<'], ','));
            lemma_bracketed(behind, '<', list, '>');
            lemma_then(n, name, seq!['<'] + list + seq!['>']);
            assert(name + (seq!['<'] + list + seq!['>']) =~= type_text(t));
        },
        TypeReprModel::Tuple(elems) => {
            let list = list_text(elems, elems.len() as int);
            lemma_one(n, '(');
            lemma_grown(n, seq!['('], list);
            lemma_unsplit_list(elems, elems.len() as int, nesting_from(n, seq!['('], ','));
            lemma_bracketed(n, '(', list, ')');
        },
        TypeReprModel::Reference { mutable, inner } => {
            let mark = if mutable {
                seq!['&', 'm', 'u', 't', ' ']
            } else {
                seq!['&']
            };
            lemma_plain(n, mark);
            lemma_grown(n, mark, type_text(*inner));
            lemma_unsplit(*inner, grown(n, mark));
            lemma_then(n, mark, type_text(*inner));
        },
        TypeReprModel::Slice(inner) => {
            lemma_one(n, '[');
            lemma_edges(*inner);
            lemma_unsplit(*inner, nesting_from(n, seq!['['], ','));
            lemma_bracketed(n, '[', type_text(*inner), ']');
        },
        TypeReprModel::Array(inner, size) => {
            let digits = text::decimal(size as nat);
            let first = type_text(*inner);
            let rest = seq![';', ' '] + digits;
            lemma_decimal(size as nat);
            lemma_one(n, '[');
            let inside = nesting_from(n, seq!['['], ',');
            lemma_unsplit(*inner, inside);
            lemma_grown(inside, first, rest);
            assert forall|i: int| 0 <= i < rest.len() implies is_name_char(#[trigger] rest[i])
                || rest[i] == ' ' || rest[i] == ';' || rest[i] == '&' by {
                if i >= 2 {
                    assert(rest[i] == digits[i - 2]);
                    assert(text::is_digit(digits[i - 2]));
                }
            }
            lemma_plain(grown(inside, first), rest);
            lemma_then(inside, first, rest);
            assert((first + rest).last() == digits.last());
            assert(text::is_digit(digits[digits.len() - 1]));
            lemma_bracketed(n, '[', first + rest, ']');
            assert(seq!['['] + (first + rest) + seq![']'] =~= type_text(t));
        },
        TypeReprModel::FnPointer { params, ret } => {
            let list = list_text(params, params.len() as int);
            let word = seq!['f', 'n'];
            lemma_plain(n, word);
            lemma_grown(n, word, list);
            let behind = grown(n, word);
            lemma_one(behind, '(');
            lemma_grown(behind, seq!['('], list);
            lemma_unsplit_list(params, params.len() as int, nesting_from(behind, seq!['('], ','));
            lemma_bracketed(behind, '(', list, ')');
            let parens = seq!['('] + list + seq![')'];
            lemma_then(n, word, parens);
            let head = word + parens;
            lemma_arrow(n, head);
            let arrow = seq![' ', '-', '>', ' '];
            lemma_grown(n, head + arrow, type_text(*ret));
            lemma_unsplit(*ret, grown(n, head + arrow));
            lemma_then(n, head + arrow, type_text(*ret));
            assert(head + arrow + type_text(*ret) =~= type_text(t));
        },
        TypeReprModel::Unit => {
            lemma_one(n, '(');
            let inside = nesting_from(n, seq!['('], ',');
            assert(grown(inside, Seq::empty()).pieces =~= inside.pieces);
            lemma_bracketed(n, '(', Seq::empty(), ')');
            assert(seq!['('] + Seq::<char>::empty() + seq![')'] =~= type_text(t));
        },
        TypeReprModel::Infer => {
            lemma_plain(n, type_text(t));
        },
    }
}

/// Nothing is split at an arrow.
proof fn lemma_arrow(n: Nesting, head: Seq<char>)
    requires
        is_settled(n),
        nesting_from(n, head, ',') == grown(n, head),
    ensures
        nesting_from(n, head + seq![' ', '-', '>', ' '], ',') == grown(
            n,
            head + seq![' ', '-', '>', ' '],
        ),
{
    let a = head + seq![' '];
    let b = a + seq!['-'];
    let c = b + seq!['>'];
    lemma_grown(n, head, seq![' ']);
    lemma_one(grown(n, head), ' ');
    lemma_then(n, head, seq![' ']);
    lemma_grown(n, a, seq!['-']);
    lemma_one(grown(n, a), '-');
    lemma_then(n, a, seq!['-']);
    lemma_grown(n, b, seq!['>']);
    lemma_one(grown(n, b), '>');
    lemma_then(n, b, seq!['>']);
    lemma_grown(n, c, seq![' ']);
    lemma_one(grown(n, c), ' ');
    lemma_then(n, c, seq![' ']);
    assert(c + seq![' '] =~= head + seq![' ', '-', '>', ' ']);
}

/// Nothing is split in a written list of types inside brackets. The list does not end in a
/// dash.
proof fn lemma_unsplit_list(ts: Seq<TypeReprModel>, k: int, n: Nesting)
    requires
        are_readable(ts),
        0 <= k <= ts.len(),
        is_nested(n),
    ensures
        nesting_from(n, list_text(ts, k), ',') == grown(n, list_text(ts, k)),
        list_text(ts, k).len() > 0 ==> list_text(ts, k).last() != '-',
    decreases ts, k,
{
    lemma_list_text(ts, k);
    if k == 0 {
        assert(grown(n, Seq::empty()).pieces =~= n.pieces);
    } else {
        let last = ts[k - 1];
        assert(is_readable(last));
        lemma_edges(last);
        if k == 1 {
            lemma_unsplit(last, n);
        } else {
            let front = list_text(ts, k - 1);
            lemma_unsplit_list(ts, k - 1, n);
            lemma_grown(n, front, seq![',']);
            lemma_one(grown(n, front), ',');
            lemma_then(n, front, seq![',']);
            lemma_grown(n, front + seq![','], seq![' ']);
            lemma_one(grown(n, front + seq![',']), ' ');
            lemma_then(n, front + seq![','], seq![' ']);
            assert(front + seq![','] + seq![' '] =~= front + seq![',', ' ']);
            lemma_grown(n, front + seq![',', ' '], type_text(last));
            lemma_unsplit(last, grown(n, front + seq![',', ' ']));
            lemma_then(n, front + seq![',', ' '], type_text(last));
        }
    }
}

/// The pieces of a written list: each type, behind a blank unless it is the first.
pub open spec fn list_pieces(ts: Seq<TypeReprModel>, k: int) -> Seq<Seq<char>> {
    Seq::new(
        k as nat,
        |i: int|
            if i == 0 {
                type_text(ts[i])
            } else {
                seq![' '] + type_text(ts[i])
            },
    )
}

proof fn lemma_list_pieces(ts: Seq<TypeReprModel>, k: int)
    requires
        are_readable(ts),
        0 < k <= ts.len(),
    ensures
        text::nesting(list_text(ts, k), ',') == (Nesting {
            pieces: list_pieces(ts, k),
            angle: 0,
            paren: 0,
            bracket: 0,
            dash: false,
        }),
    decreases k,
{
    let start = text::nesting(Seq::empty(), ',');
    let last = ts[k - 1];
    lemma_list_text(ts, k);
    assert(is_readable(last));
    lemma_edges(last);
    if k == 1 {
        lemma_unsplit(last, start);
        assert(start.pieces.last() + type_text(last) =~= type_text(last));
        assert(grown(start, type_text(last)).pieces =~= list_pieces(ts, 1));
    } else {
        lemma_list_pieces(ts, k - 1);
        let front = list_text(ts, k - 1);
        let before = text::nesting(front, ',');
        lemma_nesting_concat(start, front, seq![',', ' ']);
        lemma_nesting_concat(start, front + seq![',', ' '], type_text(last));
        assert(seq![',', ' '] =~= seq![','] + seq![' ']);
        lemma_nesting_concat(before, seq![','], seq![' ']);
        lemma_one(before, ',');
        let split = nesting_from(before, seq![','], ',');
        assert(split.pieces == before.pieces.push(Seq::empty()));
        lemma_one(split, ' ');
        let blank = grown(split, seq![' ']);
        lemma_unsplit(last, blank);
        assert(Seq::<char>::empty() + seq![' '] =~= seq![' ']);
        assert(blank.pieces =~= before.pieces.push(seq![' ']));
        assert(grown(blank, type_text(last)).pieces =~= list_pieces(ts, k));
    }
}

/// The arguments of a written list are the types as they are written.
proof fn lemma_args(ts: Seq<TypeReprModel>)
    requires
        are_readable(ts),
    ensures
        type_args(list_text(ts, ts.len() as int)) == type_texts(ts),
{
    let k = ts.len() as int;
    let s = list_text(ts, k);
    lemma_list_text(ts, k);
    reveal_with_fuel(type_texts, 2);
    let pieces = text::nested_split(s, ',');
    let parts = pieces.map_values(|p: Seq<char>| text::trim(p));
    if k == 0 {
        assert(pieces.len() == 1 && pieces[0] == Seq::<char>::empty());
        assert(parts.last() == text::trim(Seq::<char>::empty()));
        assert(parts.drop_last() =~= type_texts(ts));
    } else {
        lemma_list_pieces(ts, k);
        assert forall|i: int| 0 <= i < k implies #[trigger] parts[i] == type_text(ts[i]) by {
            assert(is_readable(ts[i]));
            lemma_edges(ts[i]);
            text::lemma_trim_blank(type_text(ts[i]));
        }
        assert(is_readable(ts[k - 1]));
        lemma_edges(ts[k - 1]);
        assert(parts =~= type_texts(ts));
    }
}

// ─── Semicolons and parentheses ───────────────────────────────────────────────

proof fn lemma_lacks_both(a: Seq<char>, b: Seq<char>, c: char)
    requires
        text::lacks(a, c),
        text::lacks(b, c),
    ensures
        text::lacks(a + b, c),
{
    assert forall|i: int| 0 <= i < (a + b).len() implies #[trigger] (a + b)[i] != c by {
        if i < a.len() {
            assert((a + b)[i] == a[i]);
        } else {
            assert((a + b)[i] == b[i - a.len()]);
        }
    }
}

/// No semicolon stands in a written type without arrays.
proof fn lemma_no_semicolon(t: TypeReprModel)
    requires
        is_readable(t),
        is_array_free(t),
    ensures
        text::lacks(type_text(t), ';'),
    decreases t, 0int,
{
    lemma_shape(t);
    match t {
        TypeReprModel::Named(name) => {
            assert forall|i: int| 0 <= i < name.len() implies #[trigger] name[i] != ';' by {
                assert(is_name_char(name[i]));
            }
        },
        TypeReprModel::Applied(base, args) => {
            let name = type_text(*base);
            lemma_shape(*base);
            assert forall|i: int| 0 <= i < name.len() implies #[trigger] name[i] != ';' by {
                assert(is_name_char(name[i]));
            }
            let list = list_text(args, args.len() as int);
            lemma_no_semicolon_in_list(args, args.len() as int);
            lemma_lacks_both(name, seq!['<'], ';');
            lemma_lacks_both(name + seq!['<'], list, ';');
            lemma_lacks_both(name + seq!['<'] + list, seq!['>'], ';');
        },
        TypeReprModel::Tuple(elems) => {
            let list = list_text(elems, elems.len() as int);
            lemma_no_semicolon_in_list(elems, elems.len() as int);
            lemma_lacks_both(seq!['('], list, ';');
            lemma_lacks_both(seq!['('] + list, seq![')'], ';');
        },
        TypeReprModel::Reference { mutable, inner } => {
            lemma_no_semicolon(*inner);
            lemma_lacks_both(
                if mutable {
                    seq!['&', 'm', 'u', 't', ' ']
                } else {
                    seq!['&']
                },
                type_text(*inner),
                ';',
            );
        },
        TypeReprModel::Slice(inner) => {
            lemma_no_semicolon(*inner);
            lemma_lacks_both(seq!['['], type_text(*inner), ';');
            lemma_lacks_both(seq!['['] + type_text(*inner), seq![']'], ';');
        },
        TypeReprModel::FnPointer { params, ret } => {
            let list = list_text(params, params.len() as int);
            let head = seq!['f', 'n', '('];
            let arrow = seq![')', ' ', '-', '>', ' '];
            lemma_no_semicolon_in_list(params, params.len() as int);
            lemma_no_semicolon(*ret);
            lemma_lacks_both(head, list, ';');
            lemma_lacks_both(head + list, arrow, ';');
            lemma_lacks_both(head + list + arrow, type_text(*ret), ';');
        },
        _ => {},
    }
}

proof fn lemma_no_semicolon_in_list(ts: Seq<TypeReprModel>, k: int)
    requires
        are_readable(ts),
        are_array_free(ts),
        0 <= k <= ts.len(),
    ensures
        text::lacks(list_text(ts, k), ';'),
    decreases ts, k,
{
    lemma_list_text(ts, k);
    if k > 0 {
        assert(is_readable(ts[k - 1]) && is_array_free(ts[k - 1]));
        lemma_no_semicolon(ts[k - 1]);
        if k > 1 {
            lemma_no_semicolon_in_list(ts, k - 1);
            lemma_lacks_both(list_text(ts, k - 1), seq![',', ' '], ';');
            lemma_lacks_both(
                list_text(ts, k - 1) + seq![',', ' '],
                type_text(ts[k - 1]),
                ';',
            );
        }
    }
}

proof fn lemma_parts_occur(s: Seq<char>, a: Seq<char>, b: Seq<char>, p: int)
    requires
        text::occurs_at(s, a + b, p),
    ensures
        text::occurs_at(s, a, p),
        text::occurs_at(s, b, p + a.len()),
{
    let all = s.subrange(p, p + (a + b).len());
    assert(s.subrange(p, p + a.len()) =~= a) by {
        assert forall|i: int| 0 <= i < a.len() implies s.subrange(p, p + a.len())[i] == a[i] by {
            assert(all[i] == (a + b)[i]);
        }
    }
    assert(s.subrange(p + a.len(), p + a.len() + b.len()) =~= b) by {
        assert forall|i: int| 0 <= i < b.len() implies s.subrange(
            p + a.len(),
            p + a.len() + b.len(),
        )[i] == b[i] by {
            assert(all[a.len() + i] == (a + b)[a.len() + i]);
        }
    }
}

/// Behind which parenthesis the one is closed that is open at a position.
pub open spec fn closed_from(s: Seq<char>, p: int, depth: nat) -> Option<int> {
    text::balanced_end(s, p, '(', ')', depth)
}

/// A text without parentheses is skipped.
proof fn lemma_skip_plain(s: Seq<char>, x: Seq<char>, p: int, depth: nat)
    requires
        text::occurs_at(s, x, p),
        text::lacks(x, '('),
        text::lacks(x, ')'),
    ensures
        closed_from(s, p, depth) == closed_from(s, p + x.len(), depth),
    decreases x.len(),
{
    if x.len() > 0 {
        let rest = x.drop_first();
        assert(x =~= seq![x[0]] + rest);
        lemma_parts_occur(s, seq![x[0]], rest, p);
        assert(s.subrange(p, p + 1)[0] == s[p]);
        assert forall|i: int| 0 <= i < rest.len() implies #[trigger] rest[i] != '(' && rest[i]
            != ')' by {
            assert(rest[i] == x[i + 1]);
        }
        assert(text::lacks(rest, '(') && text::lacks(rest, ')'));
        assert(x[0] != '(' && x[0] != ')');
        lemma_skip_plain(s, rest, p + 1, depth);
    }
}

/// What stands between parentheses is skipped with them, if it is skipped itself.
proof fn lemma_skip_parens(s: Seq<char>, x: Seq<char>, p: int, depth: nat)
    requires
        depth > 0,
        text::occurs_at(s, seq!['('] + x + seq![')'], p),
        closed_from(s, p + 1, depth + 1) == closed_from(s, p + 1 + x.len(), depth + 1),
    ensures
        closed_from(s, p, depth) == closed_from(s, p + x.len() + 2, depth),
{
    lemma_parts_occur(s, seq!['('] + x, seq![')'], p);
    lemma_parts_occur(s, seq!['('], x, p);
    assert(s.subrange(p, p + 1)[0] == s[p]);
    let e = p + 1 + x.len();
    assert(s.subrange(e, e + 1)[0] == s[e]);
}

proof fn lemma_name_lacks(name: Seq<char>)
    requires
        is_type_name(name),
    ensures
        text::lacks(name, '('),
        text::lacks(name, ')'),
        text::lacks(name, '<'),
{
    assert forall|i: int| 0 <= i < name.len() implies #[trigger] name[i] != '(' && name[i] != ')'
        && name[i] != '<' by {
        assert(is_name_char(name[i]));
    }
}

/// A written type is skipped.
proof fn lemma_skip_type(t: TypeReprModel, s: Seq<char>, p: int, depth: nat)
    requires
        is_readable(t),
        depth > 0,
        text::occurs_at(s, type_text(t), p),
    ensures
        closed_from(s, p, depth) == closed_from(s, p + type_text(t).len(), depth),
    decreases t, 0int,
{
    lemma_shape(t);
    match t {
        TypeReprModel::Named(name) => {
            lemma_name_lacks(name);
            lemma_skip_plain(s, name, p, depth);
        },
        TypeReprModel::Applied(base, args) => {
            lemma_shape(*base);
            let name = type_text(*base);
            let list = list_text(args, args.len() as int);
            lemma_name_lacks(name);
            lemma_parts_occur(s, name + seq!['<'] + list, seq!['>'], p);
            lemma_parts_occur(s, name + seq!['<'], list, p);
            lemma_lacks_both(name, seq!['<'], '(');
            lemma_lacks_both(name, seq!['<'], ')');
            lemma_skip_plain(s, name + seq!['<'], p, depth);
            lemma_skip_list(args, args.len() as int, s, p + name.len() + 1, depth);
            lemma_skip_plain(s, seq!['>'], p + name.len() + 1 + list.len(), depth);
        },
        TypeReprModel::Tuple(elems) => {
            let list = list_text(elems, elems.len() as int);
            lemma_parts_occur(s, seq!['('] + list, seq![')'], p);
            lemma_parts_occur(s, seq!['('], list, p);
            lemma_skip_list(elems, elems.len() as int, s, p + 1, depth + 1);
            lemma_skip_parens(s, list, p, depth);
        },
        TypeReprModel::Reference { mutable, inner } => {
            let mark = if mutable {
                seq!['&', 'm', 'u', 't', ' ']
            } else {
                seq!['&']
            };
            lemma_parts_occur(s, mark, type_text(*inner), p);
            lemma_skip_plain(s, mark, p, depth);
            lemma_skip_type(*inner, s, p + mark.len(), depth);
        },
        TypeReprModel::Slice(inner) => {
            let x = type_text(*inner);
            lemma_parts_occur(s, seq!['['] + x, seq![']'], p);
            lemma_parts_occur(s, seq!['['], x, p);
            lemma_skip_plain(s, seq!['['], p, depth);
            lemma_skip_type(*inner, s, p + 1, depth);
            lemma_skip_plain(s, seq![']'], p + 1 + x.len(), depth);
        },
        TypeReprModel::Array(inner, size) => {
            let x = type_text(*inner);
            let digits = text::decimal(size as nat);
            lemma_decimal(size as nat);
            let rest = seq![';', ' '] + digits + seq![']'];
            assert(type_text(t) =~= seq!['['] + x + rest);
            lemma_parts_occur(s, seq!['['] + x, rest, p);
            lemma_parts_occur(s, seq!['['], x, p);
            assert forall|i: int| 0 <= i < digits.len() implies #[trigger] digits[i] != '('
                && digits[i] != ')' by {
                assert(text::is_digit(digits[i]));
            }
            lemma_lacks_both(seq![';', ' '], digits, '(');
            lemma_lacks_both(seq![';', ' '], digits, ')');
            lemma_lacks_both(seq![';', ' '] + digits, seq![']'], '(');
            lemma_lacks_both(seq![';', ' '] + digits, seq![']'], ')');
            lemma_skip_plain(s, seq!['['], p, depth);
            lemma_skip_type(*inner, s, p + 1, depth);
            lemma_skip_plain(s, rest, p + 1 + x.len(), depth);
        },
        TypeReprModel::FnPointer { params, ret } => {
            let list = list_text(params, params.len() as int);
            let parens = seq!['('] + list + seq![')'];
            let word = seq!['f', 'n'];
            let arrow = seq![' ', '-', '>', ' '];
            let x = type_text(*ret);
            assert(type_text(t) =~= word + parens + arrow + x);
            lemma_parts_occur(s, word + parens + arrow, x, p);
            lemma_parts_occur(s, word + parens, arrow, p);
            lemma_parts_occur(s, word, parens, p);
            lemma_parts_occur(s, seq!['('] + list, seq![')'], p + 2);
            lemma_parts_occur(s, seq!['('], list, p + 2);
            lemma_skip_plain(s, word, p, depth);
            lemma_skip_list(params, params.len() as int, s, p + 3, depth + 1);
            lemma_skip_parens(s, list, p + 2, depth);
            lemma_skip_plain(s, arrow, p + 4 + list.len(), depth);
            lemma_skip_type(*ret, s, p + 8 + list.len(), depth);
        },
        TypeReprModel::Unit => {
            assert(type_text(t) =~= seq!['('] + Seq::<char>::empty() + seq![')']);
            lemma_skip_parens(s, Seq::empty(), p, depth);
        },
        TypeReprModel::Infer => {
            lemma_skip_plain(s, type_text(t), p, depth);
        },
    }
}

/// A written list of types is skipped.
proof fn lemma_skip_list(ts: Seq<TypeReprModel>, k: int, s: Seq<char>, p: int, depth: nat)
    requires
        are_readable(ts),
        0 <= k <= ts.len(),
        depth > 0,
        text::occurs_at(s, list_text(ts, k), p),
    ensures
        closed_from(s, p, depth) == closed_from(s, p + list_text(ts, k).len(), depth),
    decreases ts, k,
{
    lemma_list_text(ts, k);
    if k > 0 {
        let last = ts[k - 1];
        assert(is_readable(last));
        if k == 1 {
            lemma_skip_type(last, s, p, depth);
        } else {
            let front = list_text(ts, k - 1);
            lemma_parts_occur(s, front + seq![',', ' '], type_text(last), p);
            lemma_parts_occur(s, front, seq![',', ' '], p);
            lemma_skip_list(ts, k - 1, s, p, depth);
            lemma_skip_plain(s, seq![',', ' '], p + front.len(), depth);
            lemma_skip_type(last, s, p + front.len() + 2, depth);
        }
    }
}

// ─── Reading back ─────────────────────────────────────────────────────────────

/// The first `<` of a text that starts with a name is the one behind the name.
proof fn lemma_angle(s: Seq<char>, name: Seq<char>, i: int)
    requires
        is_type_name(name),
        0 <= i <= name.len() <= s.len(),
        s.take(name.len() as int) == name,
        name.len() < s.len() ==> s[name.len() as int] == '<',
    ensures
        name.len() < s.len() ==> angle_from(s, i, 0) == Some(name.len() as int),
        name.len() == s.len() ==> angle_from(s, i, 0) is None,
    decreases name.len() - i,
{
    if i < name.len() {
        assert(s.take(name.len() as int)[i] == s[i]);
        assert(is_name_char(name[i]));
        lemma_angle(s, name, i + 1);
    }
}

/// A text that starts with a name, alone or with arguments, is no text of another kind.
proof fn lemma_starts_with_name(s: Seq<char>, name: Seq<char>)
    requires
        is_type_name(name),
        name.len() <= s.len(),
        s.take(name.len() as int) == name,
        name.len() < s.len() ==> s[name.len() as int] == '<' && s.last() == '>',
    ensures
        s != "()"@,
        s != "_"@,
        s[0] != '&',
        s[0] != '[',
        s[0] != '(',
        !text::starts_with(s, "fn("@),
        !text::starts_with(s, "fn ("@),
{
    reveal_strlit("()");
    reveal_strlit("_");
    reveal_strlit("fn(");
    reveal_strlit("fn (");
    let n = name.len() as int;
    assert(s.take(n)[0] == s[0]);
    assert(is_name_char(name[0]));
    assert(name.len() == s.len() ==> s.take(n) =~= s);
    if n > 2 {
        assert(s.take(n)[2] == s[2]);
        assert(is_name_char(name[2]));
    } else if n == 2 {
        assert(s.take(n)[1] == s[1]);
    }
    if text::starts_with(s, "fn("@) {
        assert(s.subrange(0, 3)[2] == s[2]);
        assert(s.subrange(0, 3)[1] == s[1]);
    }
    if text::starts_with(s, "fn ("@) {
        assert(s.subrange(0, 4)[2] == s[2]);
        assert(s.subrange(0, 4)[1] == s[1]);
    }
}

/// The types of a list are read back.
proof fn lemma_read_list(
    ts: Seq<TypeReprModel>,
    i: int,
    done: Seq<TypeReprModel>,
    limit: nat,
)
    requires
        are_readable(ts),
        0 <= i <= ts.len(),
        forall|j: int| 0 <= j < ts.len() ==> (#[trigger] type_texts(ts)[j]).len() < limit,
    ensures
        types_of(type_texts(ts), i, done, limit) == Ok::<Seq<TypeReprModel>, TroubleModel>(
            done + ts.skip(i),
        ),
    decreases ts, ts.len() - i,
{
    reveal_with_fuel(type_texts, 2);
    if i < ts.len() {
        assert(is_readable(ts[i]));
        assert(type_texts(ts)[i] == type_text(ts[i]));
        lemma_read(ts[i]);
        lemma_read_list(ts, i + 1, done.push(ts[i]), limit);
        assert(done.push(ts[i]) + ts.skip(i + 1) =~= done + ts.skip(i));
    } else {
        assert(done + ts.skip(i) =~= done);
    }
}

/// The arguments of a written list are read back.
proof fn lemma_read_args(ts: Seq<TypeReprModel>, limit: nat)
    requires
        are_readable(ts),
        list_text(ts, ts.len() as int).len() < limit,
    ensures
        types_of(
            type_args(list_text(ts, ts.len() as int)),
            0,
            Seq::empty(),
            limit,
        ) == Ok::<Seq<TypeReprModel>, TroubleModel>(ts),
    decreases ts, ts.len() + 1,
{
    let list = list_text(ts, ts.len() as int);
    lemma_args(ts);
    lemma_type_args(list);
    reveal_with_fuel(type_texts, 2);
    assert forall|j: int| 0 <= j < ts.len() implies (#[trigger] type_texts(ts)[j]).len()
        < limit by {
        assert(type_args(list)[j].len() <= list.len());
    }
    lemma_read_list(ts, 0, Seq::empty(), limit);
    assert(Seq::<TypeReprModel>::empty() + ts.skip(0) =~= ts);
}

/// A list of types that is not empty is written with no blank around it.
proof fn lemma_list_edges(ts: Seq<TypeReprModel>, k: int)
    requires
        are_readable(ts),
        0 < k <= ts.len(),
    ensures
        list_text(ts, k).len() > 0,
        !text::is_whitespace(list_text(ts, k)[0]),
        !text::is_whitespace(list_text(ts, k).last()),
    decreases k,
{
    lemma_list_text(ts, k);
    assert(is_readable(ts[k - 1]));
    lemma_edges(ts[k - 1]);
    if k > 1 {
        lemma_list_edges(ts, k - 1);
        assert(list_text(ts, k)[0] == list_text(ts, k - 1)[0]);
        assert(list_text(ts, k).last() == type_text(ts[k - 1]).last());
    }
}

proof fn lemma_read_applied(base: Box<TypeReprModel>, args: Seq<TypeReprModel>)
    requires
        is_readable(TypeReprModel::Applied(base, args)),
    ensures
        type_of(type_text(TypeReprModel::Applied(base, args))) == Ok::<TypeReprModel, TroubleModel>(
            TypeReprModel::Applied(base, args),
        ),
    decreases args, args.len() + 2,
{
    let t = TypeReprModel::Applied(base, args);
    let s = type_text(t);
    lemma_shape(t);
    lemma_shape(*base);
    lemma_edges(t);
    text::lemma_trim_same(s);
    let name = type_text(*base);
    let list = list_text(args, args.len() as int);
    let n = name.len() as int;
    assert(s.take(n) =~= name);
    assert(s[n] == '<');
    assert(s.last() == '>');
    lemma_starts_with_name(s, name);
    lemma_angle(s, name, 0);
    assert(s.subrange(n + 1, s.len() - 1) =~= list);
    assert(is_name_char(name[0]) && is_name_char(name[n - 1]));
    text::lemma_trim_same(name);
    lemma_read_args(args, s.len());
}

proof fn lemma_read_tuple(elems: Seq<TypeReprModel>)
    requires
        is_readable(TypeReprModel::Tuple(elems)),
    ensures
        type_of(type_text(TypeReprModel::Tuple(elems))) == Ok::<TypeReprModel, TroubleModel>(
            TypeReprModel::Tuple(elems),
        ),
    decreases elems, elems.len() + 2,
{
    let t = TypeReprModel::Tuple(elems);
    let s = type_text(t);
    lemma_shape(t);
    lemma_edges(t);
    text::lemma_trim_same(s);
    let list = list_text(elems, elems.len() as int);
    lemma_list_edges(elems, elems.len() as int);
    text::lemma_trim_same(list);
    reveal_strlit("()");
    reveal_strlit("_");
    assert(s[0] == '(' && s.last() == ')' && s.len() > 2);
    assert(s.subrange(1, s.len() - 1) =~= list);
    lemma_read_args(elems, s.len());
}

proof fn lemma_read_reference(mutable: bool, inner: Box<TypeReprModel>)
    requires
        is_readable(*inner),
        type_of(type_text(*inner)) == Ok::<TypeReprModel, TroubleModel>(*inner),
    ensures
        type_of(type_text(TypeReprModel::Reference { mutable, inner })) == Ok::<
            TypeReprModel,
            TroubleModel,
        >(TypeReprModel::Reference { mutable, inner }),
{
    let t = TypeReprModel::Reference { mutable, inner };
    let s = type_text(t);
    let x = type_text(*inner);
    lemma_shape(t);
    lemma_edges(t);
    lemma_edges(*inner);
    text::lemma_trim_same(s);
    text::lemma_trim_same(x);
    reveal_strlit("()");
    reveal_strlit("_");
    reveal_strlit("mut ");
    assert(s[0] == '&');
    if mutable {
        let rest = seq!['m', 'u', 't', ' '] + x;
        assert(s.skip(1) =~= rest);
        assert(rest.last() == x.last());
        text::lemma_trim_same(rest);
        assert(rest.subrange(0, 4) =~= "mut "@);
        assert(text::starts_with(rest, "mut "@));
        assert(rest.skip(4) =~= x);
    } else {
        assert(s.skip(1) =~= x);
        if text::starts_with(x, "mut "@) {
            let front = x.subrange(0, 4);
            assert(front[0] == x[0] && front[1] == x[1] && front[2] == x[2] && front[3] == x[3]);
        }
    }
}

proof fn lemma_read_slice(inner: Box<TypeReprModel>)
    requires
        is_readable(TypeReprModel::Slice(inner)),
        type_of(type_text(*inner)) == Ok::<TypeReprModel, TroubleModel>(*inner),
    ensures
        type_of(type_text(TypeReprModel::Slice(inner))) == Ok::<TypeReprModel, TroubleModel>(
            TypeReprModel::Slice(inner),
        ),
{
    let t = TypeReprModel::Slice(inner);
    let s = type_text(t);
    lemma_shape(t);
    lemma_edges(t);
    text::lemma_trim_same(s);
    reveal_strlit("()");
    reveal_strlit("_");
    assert(s[0] == '[' && s.last() == ']');
    let within = s.subrange(1, s.len() - 1);
    assert(within =~= type_text(*inner));
    lemma_no_semicolon(*inner);
    text::lemma_rfind_char_before(within, ';', within.len() as int);
}

/// What stands in the brackets of a written array is parted at its last semicolon.
proof fn lemma_array_parts(x: Seq<char>, size: usize)
    ensures
        ({
            let within = x + seq![';', ' '] + text::decimal(size as nat);
            let k = x.len() as int;
            &&& text::rfind_char_before(within, ';', within.len() as int) == Some(k)
            &&& text::usize_value(text::trim(within.skip(k + 1))) == Some(size)
            &&& within.take(k) == x
        }),
{
    let digits = text::decimal(size as nat);
    let within = x + seq![';', ' '] + digits;
    let k = x.len() as int;
    lemma_decimal(size as nat);
    text::lemma_rfind_char_before(within, ';', within.len() as int);
    assert(within[k] == ';');
    assert forall|j: int| k < j < within.len() implies within[j] != ';' by {
        if j > k + 1 {
            assert(within[j] == digits[j - k - 2]);
            assert(text::is_digit(digits[j - k - 2]));
        }
    }
    assert(text::rfind_char_before(within, ';', within.len() as int) == Some(k));
    assert(within.skip(k + 1) =~= seq![' '] + digits);
    assert(within.take(k) =~= x);
    assert(text::is_digit(digits[0]) && text::is_digit(digits[digits.len() - 1]));
    text::lemma_trim_blank(digits);
}

/// The type of a text in brackets with a semicolon.
proof fn lemma_array_type(s: Seq<char>, k: int, size: usize, t: TypeReprModel)
    requires
        s.len() >= 2,
        s[0] == '[',
        s.last() == ']',
        ({
            let within = s.subrange(1, s.len() - 1);
            &&& 0 <= k <= within.len()
            &&& text::rfind_char_before(within, ';', within.len() as int) == Some(k)
            &&& text::usize_value(text::trim(within.skip(k + 1))) == Some(size)
            &&& type_of(text::trim(within.take(k))) == Ok::<TypeReprModel, TroubleModel>(t)
        }),
    ensures
        type_of(s) == Ok::<TypeReprModel, TroubleModel>(TypeReprModel::Array(Box::new(t), size)),
{
    reveal_strlit("()");
    reveal_strlit("_");
    text::lemma_trim_same(s);
    text::lemma_trim_len(s.subrange(1, s.len() - 1).take(k));
}

proof fn lemma_read_array(inner: Box<TypeReprModel>, size: usize)
    requires
        is_readable(*inner),
        type_of(type_text(*inner)) == Ok::<TypeReprModel, TroubleModel>(*inner),
    ensures
        type_of(type_text(TypeReprModel::Array(inner, size))) == Ok::<TypeReprModel, TroubleModel>(
            TypeReprModel::Array(inner, size),
        ),
{
    let t = TypeReprModel::Array(inner, size);
    let s = type_text(t);
    let x = type_text(*inner);
    assert(s == shape(t)) by {
        lemma_shape(t);
    }
    let within = x + seq![';', ' '] + text::decimal(size as nat);
    assert(s =~= seq!['['] + within + seq![']']);
    assert(s.subrange(1, s.len() - 1) =~= within);
    lemma_edges(*inner);
    text::lemma_trim_same(x);
    lemma_array_parts(x, size);
    lemma_array_type(s, x.len() as int, size, *inner);
}

proof fn lemma_read_pointer(params: Seq<TypeReprModel>, ret: Box<TypeReprModel>)
    requires
        is_readable(TypeReprModel::FnPointer { params, ret }),
        type_of(type_text(*ret)) == Ok::<TypeReprModel, TroubleModel>(*ret),
    ensures
        type_of(type_text(TypeReprModel::FnPointer { params, ret })) == Ok::<
            TypeReprModel,
            TroubleModel,
        >(TypeReprModel::FnPointer { params, ret }),
    decreases params, params.len() + 2,
{
    let t = TypeReprModel::FnPointer { params, ret };
    let s = type_text(t);
    let x = type_text(*ret);
    let list = list_text(params, params.len() as int);
    lemma_shape(t);
    lemma_edges(t);
    lemma_edges(*ret);
    text::lemma_trim_same(s);
    reveal_strlit("()");
    reveal_strlit("_");
    reveal_strlit("fn(");
    reveal_strlit("fn (");
    reveal_strlit("->");
    assert(s[0] == 'f');
    assert(s.subrange(0, 3) =~= "fn("@);
    assert(text::starts_with(s, "fn("@));
    let e = 3 + list.len() as int;
    assert(s.subrange(3, e) =~= list);
    assert(text::occurs_at(s, list, 3));
    lemma_skip_list(params, params.len() as int, s, 3, 1);
    assert(s[e] == ')');
    assert(closed_from(s, e, 1) == Some(e + 1));
    let after = seq!['-', '>', ' '] + x;
    assert(s.skip(e + 1) =~= seq![' '] + after);
    assert(after.last() == x.last());
    text::lemma_trim_blank(after);
    assert(fn_parts(s) == Ok::<(Seq<char>, Seq<char>), TroubleModel>((list, after)));
    assert(after.subrange(0, 2) =~= "->"@);
    assert(text::starts_with(after, "->"@));
    assert(after.skip(2) =~= seq![' '] + x);
    text::lemma_trim_blank(x);
    if params.len() == 0 {
        lemma_list_text(params, 0);
        assert(text::trim(list).len() == 0);
        assert(params =~= Seq::empty());
    } else {
        lemma_list_edges(params, params.len() as int);
        text::lemma_trim_same(list);
        lemma_read_args(params, s.len());
    }
}

proof fn lemma_read(t: TypeReprModel)
    requires
        is_readable(t),
    ensures
        type_of(type_text(t)) == Ok::<TypeReprModel, TroubleModel>(t),
    decreases t, 0int,
{
    match t {
        TypeReprModel::Named(name) => {
            lemma_shape(t);
            lemma_edges(t);
            text::lemma_trim_same(name);
            assert(name.take(name.len() as int) =~= name);
            lemma_starts_with_name(name, name);
            lemma_angle(name, name, 0);
        },
        TypeReprModel::Applied(base, args) => {
            lemma_read_applied(base, args);
        },
        TypeReprModel::Tuple(elems) => {
            lemma_read_tuple(elems);
        },
        TypeReprModel::Reference { mutable, inner } => {
            lemma_read(*inner);
            lemma_read_reference(mutable, inner);
        },
        TypeReprModel::Slice(inner) => {
            lemma_read(*inner);
            lemma_read_slice(inner);
        },
        TypeReprModel::Array(inner, size) => {
            lemma_read(*inner);
            lemma_read_array(inner, size);
        },
        TypeReprModel::FnPointer { params, ret } => {
            lemma_read(*ret);
            lemma_read_pointer(params, ret);
        },
        TypeReprModel::Unit => {
            lemma_shape(t);
            text::lemma_trim_same(type_text(t));
            reveal_strlit("()");
            assert(type_text(t) =~= "()"@);
        },
        TypeReprModel::Infer => {
            lemma_shape(t);
            text::lemma_trim_same(type_text(t));
            reveal_strlit("()");
            reveal_strlit("_");
            assert(type_text(t) =~= "_"@);
        },
    }
}

// ─── Laws ─────────────────────────────────────────────────────────────────────

/// A type that is written and read again is the same type.
pub proof fn written_types_are_read_back(t: TypeReprModel)
    requires
        is_readable(t),
    ensures
        type_reading(type_text(t)) == Some(Ok::<TypeReprModel, ParseErrorModel>(t)),
{
    lemma_read(t);
}

} // verus!

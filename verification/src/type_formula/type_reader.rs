//! Reading a type from its text.
use vstd::prelude::*;
use vstd::slice::slice_subrange;

use super::ast::{make_trouble, trouble, ParseError, ParseErrorModel, Trouble, TroubleModel};
use crate::data::{append_item, result_view};
use crate::text;
use crate::types::{type_model_of_lists, TypeRepr, TypeReprModel};

verus! {

/// The first `<` at or behind `i` that stands outside parentheses, of which `depth` are open.
pub open spec fn angle_from(s: Seq<char>, i: int, depth: int) -> Option<int>
    decreases s.len() - i,
{
    if i < 0 || i >= s.len() {
        None
    } else if s[i] == '(' {
        angle_from(s, i + 1, depth + 1)
    } else if s[i] == ')' {
        angle_from(s, i + 1, depth - 1)
    } else if s[i] == '<' && depth == 0 {
        Some(i)
    } else {
        angle_from(s, i + 1, depth)
    }
}

/// The position of the `<` that stands outside parentheses.
pub open spec fn angle_bracket(s: Seq<char>) -> Option<int> {
    angle_from(s, 0, 0)
}

pub proof fn lemma_angle_from(s: Seq<char>, i: int, depth: int)
    ensures
        angle_from(s, i, depth) matches Some(k) ==> i <= k < s.len() && s[k] == '<',
    decreases s.len() - i,
{
    if !(i < 0 || i >= s.len()) {
        lemma_angle_from(s, i + 1, depth + 1);
        lemma_angle_from(s, i + 1, depth - 1);
        lemma_angle_from(s, i + 1, depth);
    }
}

/// The type arguments of a list: the trimmed pieces between the commas outside brackets.
/// The last one is left out if it is empty.
pub open spec fn type_args(s: Seq<char>) -> Seq<Seq<char>> {
    let parts = text::nested_split(s, ',').map_values(|p: Seq<char>| text::trim(p));
    if parts.last().len() == 0 {
        parts.drop_last()
    } else {
        parts
    }
}

pub proof fn lemma_type_args(s: Seq<char>)
    ensures
        forall|i: int| 0 <= i < type_args(s).len() ==> (#[trigger] type_args(s)[i]).len() <= s.len(),
{
    text::lemma_nested_split(s, ',');
    let pieces = text::nested_split(s, ',');
    assert forall|i: int| 0 <= i < type_args(s).len() implies (#[trigger] type_args(s)[i]).len()
        <= s.len() by {
        assert(type_args(s)[i] == text::trim(pieces[i]));
        text::lemma_trim_len(pieces[i]);
    }
}

/// The parts of a function type: what stands between its parentheses, and what follows them.
pub open spec fn fn_parts(s: Seq<char>) -> Result<(Seq<char>, Seq<char>), TroubleModel> {
    let open: int = if text::starts_with(s, "fn("@) {
        2
    } else {
        3
    };
    match text::balanced_end(s, open + 1, '(', ')', 1) {
        Some(e) => Ok((s.subrange(open + 1, e - 1), text::trim(s.skip(e)))),
        None => Err(trouble("Unbalanced parentheses in type"@, open)),
    }
}

/// The type that a text stands for.
///
/// A text with a `<` as its last character, or with a `<` and a last character outside
/// ASCII, has no type: between the bracket and the end there is nothing to read.
pub open spec fn type_of(text: Seq<char>) -> Result<TypeReprModel, TroubleModel>
    decreases text.len(), 1nat, 0int,
{
    let s = text::trim(text);
    if s.len() == 0 || s == "()"@ {
        Ok(TypeReprModel::Unit)
    } else if s == "_"@ {
        Ok(TypeReprModel::Infer)
    } else if s[0] == '&' {
        let rest = text::trim(s.skip(1));
        let mutable = text::starts_with(rest, "mut "@);
        let inner = if mutable {
            text::trim(rest.skip(4))
        } else {
            rest
        };
        if inner.len() < text.len() {
            match type_of(inner) {
                Ok(t) => Ok(TypeReprModel::Reference { mutable, inner: Box::new(t) }),
                Err(e) => Err(e),
            }
        } else {
            Err(TroubleModel::Stuck)
        }
    } else if s[0] == '[' && s.last() == ']' {
        let inner = s.subrange(1, s.len() - 1);
        match text::rfind_char_before(inner, ';', inner.len() as int) {
            Some(k) => {
                let size = text::trim(inner.skip(k + 1));
                let element = text::trim(inner.take(k));
                match text::usize_value(size) {
                    Some(n) => if element.len() < text.len() {
                        match type_of(element) {
                            Ok(t) => Ok(TypeReprModel::Array(Box::new(t), n)),
                            Err(e) => Err(e),
                        }
                    } else {
                        Err(TroubleModel::Stuck)
                    },
                    None => Err(trouble("Invalid array size: "@ + size, 0)),
                }
            },
            None => if inner.len() < text.len() {
                match type_of(inner) {
                    Ok(t) => Ok(TypeReprModel::Slice(Box::new(t))),
                    Err(e) => Err(e),
                }
            } else {
                Err(TroubleModel::Stuck)
            },
        }
    } else if s[0] == '(' && s.last() == ')' {
        let inner = text::trim(s.subrange(1, s.len() - 1));
        if inner.len() == 0 {
            Ok(TypeReprModel::Unit)
        } else {
            match types_of(type_args(inner), 0, Seq::empty(), text.len()) {
                Ok(elems) => Ok(TypeReprModel::Tuple(elems)),
                Err(e) => Err(e),
            }
        }
    } else if text::starts_with(s, "fn("@) || text::starts_with(s, "fn ("@) {
        match fn_parts(s) {
            Ok((params, after)) => {
                let read = if text::trim(params).len() == 0 {
                    Ok(Seq::empty())
                } else {
                    types_of(type_args(params), 0, Seq::empty(), text.len())
                };
                match read {
                    Ok(ps) => if text::starts_with(after, "->"@) {
                        let ret = text::trim(after.skip(2));
                        if ret.len() < text.len() {
                            match type_of(ret) {
                                Ok(t) => Ok(
                                    TypeReprModel::FnPointer { params: ps, ret: Box::new(t) },
                                ),
                                Err(e) => Err(e),
                            }
                        } else {
                            Err(TroubleModel::Stuck)
                        }
                    } else {
                        Ok(
                            TypeReprModel::FnPointer {
                                params: ps,
                                ret: Box::new(TypeReprModel::Unit),
                            },
                        )
                    },
                    Err(e) => Err(e),
                }
            },
            Err(e) => Err(e),
        }
    } else {
        match angle_bracket(s) {
            Some(k) => if k == s.len() - 1 || s.last() as u32 >= 128 {
                Err(TroubleModel::Stuck)
            } else {
                match types_of(
                    type_args(s.subrange(k + 1, s.len() - 1)),
                    0,
                    Seq::empty(),
                    text.len(),
                ) {
                    Ok(args) => Ok(
                        TypeReprModel::Applied(
                            Box::new(TypeReprModel::Named(text::trim(s.take(k)))),
                            args,
                        ),
                    ),
                    Err(e) => Err(e),
                }
            },
            None => Ok(TypeReprModel::Named(s)),
        }
    }
}

/// The types of the parts from the `i`-th on, behind those that are done. Each part is
/// shorter than the text of `limit` characters that it comes from.
pub open spec fn types_of(
    parts: Seq<Seq<char>>,
    i: int,
    done: Seq<TypeReprModel>,
    limit: nat,
) -> Result<Seq<TypeReprModel>, TroubleModel>
    decreases limit, 0nat, parts.len() - i,
{
    if i < 0 || i >= parts.len() {
        Ok(done)
    } else if parts[i].len() < limit {
        match type_of(parts[i]) {
            Ok(t) => types_of(parts, i + 1, done.push(t), limit),
            Err(e) => Err(e),
        }
    } else {
        Err(TroubleModel::Stuck)
    }
}

fn find_angle_bracket(s: &[char]) -> (r: Option<usize>)
    ensures
        match r {
            Some(k) => angle_bracket(s@) == Some(k as int) && k < s@.len(),
            None => angle_bracket(s@) is None,
        },
{
    let mut depth: i128 = 0;
    let mut i: usize = 0;
    while i < s.len()
        invariant
            i <= s@.len(),
            -i <= depth <= i,
            angle_bracket(s@) == angle_from(s@, i as int, depth as int),
        decreases s@.len() - i,
    {
        if s[i] == '(' {
            depth += 1;
        } else if s[i] == ')' {
            depth -= 1;
        } else if s[i] == '<' && depth == 0 {
            return Some(i);
        }
        i += 1;
    }
    None
}

fn split_type_args(s: &[char]) -> (r: Vec<String>)
    ensures
        r.deep_view() == type_args(s@),
        forall|i: int| 0 <= i < r@.len() ==> (#[trigger] r@[i])@.len() <= s@.len(),
{
    let pieces = text::split_nested(s, ',');
    let ghost trimmed = pieces.deep_view().map_values(|p: Seq<char>| text::trim(p));
    let mut parts: Vec<String> = Vec::new();
    let mut i: usize = 0;
    while i < pieces.len()
        invariant
            i <= pieces@.len(),
            trimmed == pieces.deep_view().map_values(|p: Seq<char>| text::trim(p)),
            parts@.len() == i,
            forall|j: int| 0 <= j < i ==> (#[trigger] parts@[j])@ == trimmed[j],
        decreases pieces@.len() - i,
    {
        let part = text::trimmed(pieces[i].as_str());
        assert(pieces.deep_view()[i as int] == pieces@[i as int]@);
        parts.push(part);
        i += 1;
    }
    assert(parts.deep_view() =~= trimmed);
    let last: usize = parts.len() - 1;
    if parts[last].as_str().is_empty() {
        let ghost before = parts.deep_view();
        let _ = parts.pop();
        assert(parts.deep_view() =~= before.drop_last());
    }
    proof {
        lemma_type_args(s@);
        assert forall|j: int| 0 <= j < parts@.len() implies (#[trigger] parts@[j])@.len()
            <= s@.len() by {
            assert(parts.deep_view()[j] == parts@[j]@);
            assert(type_args(s@)[j].len() <= s@.len());
        }
    }
    parts
}

fn read_types(parts: &Vec<String>, limit: usize) -> (r: Result<Vec<TypeRepr>, Trouble>)
    requires
        forall|i: int| 0 <= i < parts@.len() ==> (#[trigger] parts@[i])@.len() < limit,
    ensures
        result_view(r) == types_of(parts.deep_view(), 0, Seq::empty(), limit as nat),
    decreases limit, 0nat,
{
    let mut out: Vec<TypeRepr> = Vec::new();
    let mut i: usize = 0;
    let ghost texts = parts.deep_view();
    assert(out.deep_view() =~= Seq::empty());
    while i < parts.len()
        invariant
            i <= parts@.len(),
            texts == parts.deep_view(),
            forall|j: int| 0 <= j < parts@.len() ==> (#[trigger] parts@[j])@.len() < limit,
            types_of(texts, 0, Seq::empty(), limit as nat) == types_of(
                texts,
                i as int,
                out.deep_view(),
                limit as nat,
            ),
        decreases parts@.len() - i,
    {
        let part = text::chars_of(parts[i].as_str());
        assert(texts[i as int] == parts@[i as int]@);
        let t = read_type(part.as_slice())?;
        append_item(&mut out, t);
        i += 1;
    }
    Ok(out)
}

fn read_boxed(s: &[char]) -> (r: Result<Box<TypeRepr>, Trouble>)
    ensures
        match r {
            Ok(t) => type_of(s@) == Ok::<TypeReprModel, TroubleModel>(t.deep_view()),
            Err(e) => type_of(s@) == Err::<TypeReprModel, TroubleModel>(e.deep_view()),
        },
    decreases s@.len(), 2nat,
{
    let t = read_type(s)?;
    Ok(Box::new(t))
}

fn read_type(text: &[char]) -> (r: Result<TypeRepr, Trouble>)
    ensures
        result_view(r) == type_of(text@),
    decreases text@.len(), 1nat,
{
    let s = text::trim_chars(text);
    proof {
        text::lemma_trim_len(text@);
        reveal_strlit("fn(");
        reveal_strlit("fn (");
        reveal_strlit("mut ");
        reveal_strlit("->");
    }
    if s.len() == 0 || text::chars_are(s, "()") {
        return Ok(TypeRepr::Unit);
    }
    if text::chars_are(s, "_") {
        return Ok(TypeRepr::Infer);
    }
    let n: usize = s.len();
    if s[0] == '&' {
        let rest = text::trim_chars(slice_subrange(s, 1, n));
        assert(s@.skip(1) =~= s@.subrange(1, n as int));
        proof {
            text::lemma_trim_len(s@.skip(1));
        }
        let mutable = text::chars_start_with(rest, "mut ");
        let inner = if mutable {
            assert(rest@.skip(4) =~= rest@.subrange(4, rest@.len() as int));
            proof {
                text::lemma_trim_len(rest@.skip(4));
            }
            text::trim_chars(slice_subrange(rest, 4, rest.len()))
        } else {
            rest
        };
        let t = read_boxed(inner)?;
        return Ok(TypeRepr::Reference { mutable, inner: t });
    }
    if s[0] == '[' && s[n - 1] == ']' {
        let inner = slice_subrange(s, 1, n - 1);
        return match text::rfind_char(inner, ';') {
            Some(k) => {
                let size = text::trim_chars(slice_subrange(inner, k + 1, inner.len()));
                let element = text::trim_chars(slice_subrange(inner, 0, k));
                proof {
                    assert(inner@.skip(k + 1) =~= inner@.subrange(k + 1, inner@.len() as int));
                    assert(inner@.take(k as int) =~= inner@.subrange(0, k as int));
                    text::lemma_trim_len(inner@.take(k as int));
                }
                match text::parse_usize(size) {
                    Some(count) => {
                        let t = read_boxed(element)?;
                        Ok(TypeRepr::Array(t, count))
                    },
                    None => {
                        let mut message = "Invalid array size: ".to_owned();
                        message.append(text::string_of(size).as_str());
                        Err(make_trouble(message, 0))
                    },
                }
            },
            None => {
                let t = read_boxed(inner)?;
                Ok(TypeRepr::Slice(t))
            },
        };
    }
    if s[0] == '(' && s[n - 1] == ')' {
        let inner = text::trim_chars(slice_subrange(s, 1, n - 1));
        proof {
            text::lemma_trim_len(s@.subrange(1, n - 1));
        }
        if inner.len() == 0 {
            return Ok(TypeRepr::Unit);
        }
        let parts = split_type_args(inner);
        let elems = read_types(&parts, text.len())?;
        let r = TypeRepr::Tuple(elems);
        proof {
            type_model_of_lists(r);
        }
        return Ok(r);
    }
    let tight = text::chars_start_with(s, "fn(");
    if tight || text::chars_start_with(s, "fn (") {
        let open: usize = if tight {
            2
        } else {
            3
        };
        let end = match text::skip_balanced(s, open + 1, '(', ')') {
            Some(e) => e,
            None => {
                return Err(make_trouble("Unbalanced parentheses in type".to_owned(), open));
            },
        };
        let inside = slice_subrange(s, open + 1, end - 1);
        let after = text::trim_chars(slice_subrange(s, end, n));
        proof {
            assert(s@.skip(end as int) =~= s@.subrange(end as int, n as int));
            text::lemma_trim_len(s@.skip(end as int));
        }
        let params = if text::trim_chars(inside).len() == 0 {
            let none: Vec<TypeRepr> = Vec::new();
            assert(none.deep_view() =~= Seq::empty());
            none
        } else {
            let parts = split_type_args(inside);
            read_types(&parts, text.len())?
        };
        let ret = if text::chars_start_with(after, "->") {
            assert(after@.skip(2) =~= after@.subrange(2, after@.len() as int));
            proof {
                text::lemma_trim_len(after@.skip(2));
            }
            read_boxed(text::trim_chars(slice_subrange(after, 2, after.len())))?
        } else {
            Box::new(TypeRepr::Unit)
        };
        let r = TypeRepr::FnPointer { params, ret };
        proof {
            type_model_of_lists(r);
        }
        return Ok(r);
    }
    match find_angle_bracket(s) {
        Some(k) => {
            if k == n - 1 || s[n - 1] as u32 >= 128 {
                return Err(Trouble::Stuck);
            }
            let name = text::string_of(text::trim_chars(slice_subrange(s, 0, k)));
            assert(s@.take(k as int) =~= s@.subrange(0, k as int));
            let parts = split_type_args(slice_subrange(s, k + 1, n - 1));
            let args = read_types(&parts, text.len())?;
            let r = TypeRepr::Applied(Box::new(TypeRepr::Named(name)), args);
            proof {
                type_model_of_lists(r);
            }
            Ok(r)
        },
        None => Ok(TypeRepr::Named(text::string_of(s))),
    }
}

/// What reading a type ends in, without the texts of which there is no reading.
pub open spec fn type_reading(text: Seq<char>) -> Option<Result<TypeReprModel, ParseErrorModel>> {
    match type_of(text) {
        Ok(t) => Some(Ok(t)),
        Err(TroubleModel::Error(e)) => Some(Err(e)),
        Err(TroubleModel::Stuck) => None,
    }
}

/// Reads a type such as `Vec<String>` or `&mut HashMap<String, Vec<u8>>`, or says that the
/// text has no reading.
pub fn checked_parse_type_repr_from_str(s: &str) -> (r: Option<Result<TypeRepr, ParseError>>)
    ensures
        match r {
            Some(read) => type_reading(s@) == Some(result_view(read)),
            None => type_reading(s@) is None,
        },
{
    let chars = text::chars_of(s);
    match read_type(chars.as_slice()) {
        Ok(t) => Some(Ok(t)),
        Err(Trouble::Error(e)) => Some(Err(e)),
        Err(Trouble::Stuck) => None,
    }
}

/// Reads a type such as `Vec<String>` or `&mut HashMap<String, Vec<u8>>`. Every text without a
/// `<` has a reading.
pub fn parse_type_repr_from_str(s: &str) -> (r: Result<TypeRepr, ParseError>)
    requires
        text::lacks(s@, '<') || type_reading(s@) is Some,
    ensures
        type_reading(s@) == Some(result_view(r)),
{
    proof {
        if text::lacks(s@, '<') {
            plain_types_have_readings(s@);
        }
    }
    match checked_parse_type_repr_from_str(s) {
        Some(r) => r,
        None => Ok(TypeRepr::Unit),
    }
}

// ─── Laws ─────────────────────────────────────────────────────────────────────

/// Every text without a `<` has a reading as a type, if only as an error.
pub proof fn plain_types_have_readings(text: Seq<char>)
    requires
        text::lacks(text, '<'),
    ensures
        type_of(text) != Err::<TypeReprModel, TroubleModel>(TroubleModel::Stuck),
        type_reading(text) is Some,
    decreases text.len(), 1nat, 0int,
{
    let s = text::trim(text);
    text::lemma_trim_len(text);
    text::lemma_trim_lacks(text, '<');
    reveal_strlit("mut ");
    reveal_strlit("fn(");
    reveal_strlit("fn (");
    reveal_strlit("->");
    if s.len() == 0 || s == "()"@ || s == "_"@ {
    } else if s[0] == '&' {
        let rest = text::trim(s.skip(1));
        assert(text::lacks(s.skip(1), '<'));
        text::lemma_trim_len(s.skip(1));
        text::lemma_trim_lacks(s.skip(1), '<');
        if text::starts_with(rest, "mut "@) {
            assert(text::lacks(rest.skip(4), '<'));
            text::lemma_trim_len(rest.skip(4));
            text::lemma_trim_lacks(rest.skip(4), '<');
            plain_types_have_readings(text::trim(rest.skip(4)));
        } else {
            plain_types_have_readings(rest);
        }
    } else if s[0] == '[' && s.last() == ']' {
        let inner = s.subrange(1, s.len() - 1);
        assert(text::lacks(inner, '<'));
        text::lemma_rfind_char_before(inner, ';', inner.len() as int);
        match text::rfind_char_before(inner, ';', inner.len() as int) {
            Some(k) => {
                assert(text::lacks(inner.take(k), '<'));
                text::lemma_trim_len(inner.take(k));
                text::lemma_trim_lacks(inner.take(k), '<');
                plain_types_have_readings(text::trim(inner.take(k)));
            },
            None => {
                plain_types_have_readings(inner);
            },
        }
    } else if s[0] == '(' && s.last() == ')' {
        let within = s.subrange(1, s.len() - 1);
        let inner = text::trim(within);
        assert(text::lacks(within, '<'));
        text::lemma_trim_len(within);
        text::lemma_trim_lacks(within, '<');
        lemma_plain_args(inner);
        lemma_plain_types(type_args(inner), 0, Seq::empty(), text.len());
    } else if text::starts_with(s, "fn("@) || text::starts_with(s, "fn ("@) {
        match fn_parts(s) {
            Ok((params, after)) => {
                let open: int = if text::starts_with(s, "fn("@) {
                    2
                } else {
                    3
                };
                text::lemma_balanced_end(s, open + 1, '(', ')', 1);
                let e = text::balanced_end(s, open + 1, '(', ')', 1)->Some_0;
                assert(text::lacks(params, '<'));
                lemma_plain_args(params);
                lemma_plain_types(type_args(params), 0, Seq::empty(), text.len());
                assert(text::lacks(s.skip(e), '<'));
                text::lemma_trim_len(s.skip(e));
                text::lemma_trim_lacks(s.skip(e), '<');
                if text::starts_with(after, "->"@) {
                    assert(text::lacks(after.skip(2), '<'));
                    text::lemma_trim_len(after.skip(2));
                    text::lemma_trim_lacks(after.skip(2), '<');
                    plain_types_have_readings(text::trim(after.skip(2)));
                }
            },
            Err(_) => {},
        }
    } else {
        lemma_angle_from(s, 0, 0);
    }
}

proof fn lemma_plain_args(s: Seq<char>)
    requires
        text::lacks(s, '<'),
    ensures
        forall|i: int|
            0 <= i < type_args(s).len() ==> text::lacks(#[trigger] type_args(s)[i], '<')
                && type_args(s)[i].len() <= s.len(),
{
    lemma_type_args(s);
    text::lemma_nested_lacks(s, ',', '<');
    let pieces = text::nested_split(s, ',');
    assert forall|i: int| 0 <= i < type_args(s).len() implies text::lacks(
        #[trigger] type_args(s)[i],
        '<',
    ) && type_args(s)[i].len() <= s.len() by {
        assert(type_args(s)[i] == text::trim(pieces[i]));
        text::lemma_trim_lacks(pieces[i], '<');
    }
}

proof fn lemma_plain_types(
    parts: Seq<Seq<char>>,
    i: int,
    done: Seq<TypeReprModel>,
    limit: nat,
)
    requires
        forall|j: int|
            0 <= j < parts.len() ==> text::lacks(#[trigger] parts[j], '<') && parts[j].len()
                < limit,
    ensures
        types_of(parts, i, done, limit) != Err::<Seq<TypeReprModel>, TroubleModel>(
            TroubleModel::Stuck,
        ),
    decreases limit, 0nat, parts.len() - i,
{
    if 0 <= i < parts.len() {
        assert(text::lacks(parts[i], '<'));
        plain_types_have_readings(parts[i]);
        match type_of(parts[i]) {
            Ok(t) => {
                lemma_plain_types(parts, i + 1, done.push(t), limit);
            },
            Err(_) => {},
        }
    }
}

} // verus!

//! Reading Flow9 types, fields and parameters from pieces of text.
use vstd::prelude::*;
use vstd::slice::slice_subrange;

use super::flow9::{
    applied_to_one, function_info, lemma_comments_ascii, make_applied_to_one, make_function_info,
    param, strip_comments, without_comments,
};
use crate::data::append_item;
use crate::flow9_parser::scan::{cut, cut_bytes, lemma_cut_ascii};
use crate::text;
use crate::types::{
    type_model, type_model_of_lists, FieldInfo, FieldInfoModel, FunctionInfo, FunctionInfoModel,
    ParamInfo, ParamInfoModel, TypeRepr, TypeReprModel, Visibility,
};

verus! {

/// The first `->` at or behind `i` outside brackets, of which so many are open. The `>` of an
/// arrow is no bracket.
pub open spec fn arrow_from(s: Seq<char>, i: int, paren: int, angle: int, bracket: int) -> Option<
    int,
>
    decreases s.len() - i,
{
    if i < 0 || i >= s.len() - 1 {
        None
    } else if s[i] == '(' {
        arrow_from(s, i + 1, paren + 1, angle, bracket)
    } else if s[i] == ')' {
        arrow_from(s, i + 1, paren - 1, angle, bracket)
    } else if s[i] == '<' {
        arrow_from(s, i + 1, paren, angle + 1, bracket)
    } else if s[i] == '>' && !text::is_arrow_end(s, i) {
        arrow_from(s, i + 1, paren, angle - 1, bracket)
    } else if s[i] == '[' {
        arrow_from(s, i + 1, paren, angle, bracket + 1)
    } else if s[i] == ']' {
        arrow_from(s, i + 1, paren, angle, bracket - 1)
    } else if s[i] == '-' && paren == 0 && angle == 0 && bracket == 0 && s[i + 1] == '>' {
        Some(i)
    } else {
        arrow_from(s, i + 1, paren, angle, bracket)
    }
}

pub open spec fn top_level_arrow(s: Seq<char>) -> Option<int> {
    arrow_from(s, 0, 0, 0, 0)
}

/// The position of a top-level `->`: one outside parentheses, angle brackets and brackets.
fn find_top_level_arrow(s: &[char]) -> (r: Option<usize>)
    ensures
        match r {
            Some(k) => top_level_arrow(s@) == Some(k as int) && k + 2 <= s@.len(),
            None => top_level_arrow(s@) is None,
        },
{
    if s.len() == 0 {
        return None;
    }
    let last: usize = s.len() - 1;
    let mut paren: i128 = 0;
    let mut angle: i128 = 0;
    let mut bracket: i128 = 0;
    let mut i: usize = 0;
    while i < last
        invariant
            i <= last == s@.len() - 1,
            -i <= paren <= i,
            -i <= angle <= i,
            -i <= bracket <= i,
            top_level_arrow(s@) == arrow_from(
                s@,
                i as int,
                paren as int,
                angle as int,
                bracket as int,
            ),
        decreases last - i,
    {
        let c = s[i];
        if c == '(' {
            paren += 1;
        } else if c == ')' {
            paren -= 1;
        } else if c == '<' {
            angle += 1;
        } else if c == '>' && !(i > 0 && s[i - 1] == '-') {
            angle -= 1;
        } else if c == '[' {
            bracket += 1;
        } else if c == ']' {
            bracket -= 1;
        } else if c == '-' && paren == 0 && angle == 0 && bracket == 0 && s[i + 1] == '>' {
            return Some(i);
        }
        i += 1;
    }
    None
}

/// The pieces between the delimiters outside `()`, `<>` and `[]`, without an empty last one.
pub open spec fn pieces_of(s: Seq<char>, delim: char) -> Seq<Seq<char>> {
    let parts = text::nested_split(s, delim);
    if parts.last().len() == 0 {
        parts.drop_last()
    } else {
        parts
    }
}

fn split_respecting_nesting(s: &[char], delim: char) -> (r: Vec<String>)
    ensures
        r.deep_view() == pieces_of(s@, delim),
        forall|i: int| 0 <= i < r@.len() ==> (#[trigger] r@[i])@.len() <= s@.len(),
{
    let mut parts = text::split_nested(s, delim);
    let ghost all = parts.deep_view();
    assert(all.len() == parts@.len());
    let last: usize = parts.len() - 1;
    assert(all.last() == parts@[last as int]@);
    if parts[last].as_str().is_empty() {
        let _ = parts.pop();
        assert(parts.deep_view() =~= all.drop_last());
    }
    proof {
        text::lemma_nested_split(s@, delim);
        assert forall|i: int| 0 <= i < parts@.len() implies (#[trigger] parts@[i])@.len()
            <= s@.len() by {
            assert(parts.deep_view()[i] == parts@[i]@);
            assert(all[i].len() <= s@.len());
        }
    }
    parts
}

pub open spec fn all_marks(s: Seq<char>) -> bool {
    forall|i: int| 0 <= i < s.len() ==> #[trigger] s[i] == '?'
}

fn only_marks(s: &[char]) -> (b: bool)
    ensures
        b == all_marks(s@),
{
    let mut i: usize = 0;
    while i < s.len()
        invariant
            i <= s@.len(),
            forall|j: int| 0 <= j < i ==> #[trigger] s@[j] == '?',
        decreases s@.len() - i,
    {
        if s[i] != '?' {
            assert(s@[i as int] != '?');
            return false;
        }
        i += 1;
    }
    true
}

/// The part of a list item that is its type: what stands behind a colon, if there is one.
pub open spec fn item_type(p: Seq<char>) -> Seq<char> {
    let t = text::trim(p);
    match text::find_char_from(t, ':', 0) {
        Some(k) => text::trim(t.skip(k + 1)),
        None => t,
    }
}

pub proof fn lemma_item_type(p: Seq<char>)
    ensures
        item_type(p).len() <= p.len(),
{
    let t = text::trim(p);
    text::lemma_trim_len(p);
    text::lemma_find_char_from(t, ':', 0);
    match text::find_char_from(t, ':', 0) {
        Some(k) => {
            text::lemma_trim_len(t.skip(k + 1));
        },
        None => {},
    }
}

fn take_item_type(p: &[char]) -> (r: &[char])
    ensures
        r@ == item_type(p@),
        r@.len() <= p@.len(),
{
    proof {
        lemma_item_type(p@);
    }
    let t = text::trim_chars(p);
    match text::find_char(t, ':', 0) {
        Some(k) => {
            assert(t@.skip(k + 1) =~= t@.subrange(k + 1, t@.len() as int));
            text::trim_chars(slice_subrange(t, k + 1, t.len()))
        },
        None => t,
    }
}

/// The type that a text stands for. None where the arrow of a function type, counted in
/// characters, falls inside a character when counted in bytes.
pub open spec fn flow9_type_of(text: Seq<char>) -> Option<TypeReprModel>
    decreases text.len(), 1nat, 0int,
{
    let s = text::trim(text);
    if s.len() == 0 {
        Some(TypeReprModel::Unit)
    } else if all_marks(s) {
        Some(TypeReprModel::Named(s))
    } else if s == "void"@ {
        Some(TypeReprModel::Unit)
    } else if s[0] == '[' && s.last() == ']' {
        let inner = s.subrange(1, s.len() - 1);
        if inner.len() < text.len() {
            match flow9_type_of(inner) {
                Some(t) => Some(applied_to_one("Array"@, t)),
                None => None,
            }
        } else {
            None
        }
    } else if text::starts_with(s, "ref "@) {
        let inner = s.skip(4);
        if inner.len() < text.len() {
            match flow9_type_of(inner) {
                Some(t) => Some(applied_to_one("ref"@, t)),
                None => None,
            }
        } else {
            None
        }
    } else {
        match top_level_arrow(s) {
            Some(k) => match (cut(s, 0, k as nat), cut(s, 0, (k + 2) as nat)) {
                (Some(a), Some(b)) => {
                    let params = text::trim(s.take(a));
                    let ret = text::trim(s.skip(b));
                    let read = if params.len() > 0 && params[0] == '(' && params.last() == ')' {
                        type_list_of(params.subrange(1, params.len() - 1), text.len())
                    } else if params.len() < text.len() {
                        match flow9_type_of(params) {
                            Some(t) => Some(seq![t]),
                            None => None,
                        }
                    } else {
                        None
                    };
                    match read {
                        Some(ps) => if ret.len() < text.len() {
                            match flow9_type_of(ret) {
                                Some(t) => Some(
                                    TypeReprModel::FnPointer { params: ps, ret: Box::new(t) },
                                ),
                                None => None,
                            }
                        } else {
                            None
                        },
                        None => None,
                    }
                },
                _ => None,
            },
            None => match text::find_char_from(s, '<', 0) {
                Some(k) => if s.last() == '>' {
                    match type_list_of(s.subrange(k + 1, s.len() - 1), text.len()) {
                        Some(args) => Some(
                            TypeReprModel::Applied(
                                Box::new(TypeReprModel::Named(text::trim(s.take(k)))),
                                args,
                            ),
                        ),
                        None => None,
                    }
                } else {
                    Some(TypeReprModel::Named(s))
                },
                None => Some(TypeReprModel::Named(s)),
            },
        }
    }
}

/// The types of a comma-separated list, each with a name before it if it has one. The text
/// comes from one of `limit` characters, and is shorter.
pub open spec fn type_list_of(s: Seq<char>, limit: nat) -> Option<Seq<TypeReprModel>>
    decreases limit, 0nat, 1int + pieces_of(s, ',').len(),
{
    if text::trim(s).len() == 0 {
        Some(Seq::empty())
    } else {
        types_from(pieces_of(s, ','), 0, Seq::empty(), limit)
    }
}

pub open spec fn types_from(
    parts: Seq<Seq<char>>,
    i: int,
    done: Seq<TypeReprModel>,
    limit: nat,
) -> Option<Seq<TypeReprModel>>
    decreases limit, 0nat, parts.len() - i,
{
    if i < 0 || i >= parts.len() {
        Some(done)
    } else if item_type(parts[i]).len() < limit {
        match flow9_type_of(item_type(parts[i])) {
            Some(t) => types_from(parts, i + 1, done.push(t), limit),
            None => None,
        }
    } else {
        None
    }
}

fn parse_type_list(s: &[char], limit: usize) -> (r: Option<Vec<TypeRepr>>)
    requires
        s@.len() < limit,
    ensures
        r.deep_view() == type_list_of(s@, limit as nat),
    decreases limit, 0nat,
{
    if text::trim_chars(s).len() == 0 {
        let none: Vec<TypeRepr> = Vec::new();
        assert(none.deep_view() =~= Seq::empty());
        return Some(none);
    }
    let parts = split_respecting_nesting(s, ',');
    let mut out: Vec<TypeRepr> = Vec::new();
    let mut i: usize = 0;
    let ghost texts = parts.deep_view();
    assert(out.deep_view() =~= Seq::empty());
    while i < parts.len()
        invariant
            i <= parts@.len(),
            s@.len() < limit,
            texts == parts.deep_view(),
            forall|j: int| 0 <= j < parts@.len() ==> (#[trigger] parts@[j])@.len() <= s@.len(),
            type_list_of(s@, limit as nat) == types_from(
                texts,
                i as int,
                out.deep_view(),
                limit as nat,
            ),
        decreases parts@.len() - i,
    {
        let part = text::chars_of(parts[i].as_str());
        assert(texts[i as int] == parts@[i as int]@);
        match read_flow9_type(take_item_type(part.as_slice())) {
            Some(t) => {
                append_item(&mut out, t);
            },
            None => {
                return None;
            },
        }
        i += 1;
    }
    Some(out)
}

fn read_flow9_type(text: &[char]) -> (r: Option<TypeRepr>)
    ensures
        r.deep_view() == flow9_type_of(text@),
    decreases text@.len(), 1nat,
{
    let s = text::trim_chars(text);
    proof {
        text::lemma_trim_len(text@);
        reveal_strlit("ref ");
    }
    if s.len() == 0 {
        return Some(TypeRepr::Unit);
    }
    if only_marks(s) {
        return Some(TypeRepr::Named(text::string_of(s)));
    }
    if text::chars_are(s, "void") {
        return Some(TypeRepr::Unit);
    }
    let n: usize = s.len();
    if s[0] == '[' && s[n - 1] == ']' {
        return match read_flow9_type(slice_subrange(s, 1, n - 1)) {
            Some(t) => Some(make_applied_to_one("Array", t)),
            None => None,
        };
    }
    if text::chars_start_with(s, "ref ") {
        assert(s@.skip(4) =~= s@.subrange(4, n as int));
        return match read_flow9_type(slice_subrange(s, 4, n)) {
            Some(t) => Some(make_applied_to_one("ref", t)),
            None => None,
        };
    }
    if let Some(k) = find_top_level_arrow(s) {
        return match (cut_bytes(s, 0, k), cut_bytes(s, 0, k + 2)) {
            (Some(a), Some(b)) => {
                let params = text::trim_chars(slice_subrange(s, 0, a));
                let ret = text::trim_chars(slice_subrange(s, b, n));
                proof {
                    assert(s@.take(a as int) =~= s@.subrange(0, a as int));
                    assert(s@.skip(b as int) =~= s@.subrange(b as int, n as int));
                    text::lemma_trim_len(s@.take(a as int));
                    text::lemma_trim_len(s@.skip(b as int));
                    lemma_arrow_parts(s@);
                }
                let read = if params.len() > 0 && params[0] == '(' && params[params.len() - 1]
                    == ')' {
                    parse_type_list(slice_subrange(params, 1, params.len() - 1), text.len())
                } else {
                    match read_flow9_type(params) {
                        Some(t) => {
                            let ghost model = t.deep_view();
                            let mut one: Vec<TypeRepr> = Vec::new();
                            one.push(t);
                            assert(one.deep_view() =~= seq![model]);
                            Some(one)
                        },
                        None => None,
                    }
                };
                match read {
                    Some(ps) => match read_flow9_type(ret) {
                        Some(t) => {
                            let r = TypeRepr::FnPointer { params: ps, ret: Box::new(t) };
                            proof {
                                type_model_of_lists(r);
                            }
                            Some(r)
                        },
                        None => None,
                    },
                    None => None,
                }
            },
            _ => None,
        };
    }
    if let Some(k) = text::find_char(s, '<', 0) {
        if s[n - 1] == '>' {
            let name = text::string_of(text::trim_chars(slice_subrange(s, 0, k)));
            assert(s@.take(k as int) =~= s@.subrange(0, k as int));
            return match parse_type_list(slice_subrange(s, k + 1, n - 1), text.len()) {
                Some(args) => {
                    let r = TypeRepr::Applied(Box::new(TypeRepr::Named(name)), args);
                    proof {
                        type_model_of_lists(r);
                        reveal_with_fuel(type_model, 2);
                    }
                    Some(r)
                },
                None => None,
            };
        }
    }
    Some(TypeRepr::Named(text::string_of(s)))
}

/// Bytes are at least as many as characters, so that a cut never lies behind as many
/// characters.
proof fn lemma_cut_short(s: Seq<char>, at: int, n: nat)
    requires
        0 <= at <= s.len(),
    ensures
        cut(s, at, n) matches Some(e) ==> at <= e <= at + n && e <= s.len() && (n > 0 && at
            < s.len() ==> at < e),
    decreases s.len() - at,
{
    if at < s.len() && n > 0 && crate::flow9_parser::scan::width(s[at]) <= n {
        lemma_cut_short(
            s,
            at + 1,
            (n - crate::flow9_parser::scan::width(s[at])) as nat,
        );
    }
}

proof fn lemma_arrow_from(s: Seq<char>, i: int, paren: int, angle: int, bracket: int)
    ensures
        arrow_from(s, i, paren, angle, bracket) matches Some(k) ==> i <= k && k + 2 <= s.len(),
    decreases s.len() - i,
{
    if 0 <= i < s.len() - 1 {
        lemma_arrow_from(s, i + 1, paren + 1, angle, bracket);
        lemma_arrow_from(s, i + 1, paren - 1, angle, bracket);
        lemma_arrow_from(s, i + 1, paren, angle + 1, bracket);
        lemma_arrow_from(s, i + 1, paren, angle - 1, bracket);
        lemma_arrow_from(s, i + 1, paren, angle, bracket + 1);
        lemma_arrow_from(s, i + 1, paren, angle, bracket - 1);
        lemma_arrow_from(s, i + 1, paren, angle, bracket);
    }
}

proof fn lemma_arrow_parts(s: Seq<char>)
    ensures
        top_level_arrow(s) matches Some(k) ==> {
            &&& cut(s, 0, k as nat) matches Some(a) ==> 0 <= a < s.len()
            &&& cut(s, 0, (k + 2) as nat) matches Some(b) ==> 0 < b <= s.len()
        },
{
    lemma_arrow_from(s, 0, 0, 0, 0);
    match top_level_arrow(s) {
        Some(k) => {
            lemma_cut_short(s, 0, k as nat);
            lemma_cut_short(s, 0, (k + 2) as nat);
        },
        None => {},
    }
}

/// Reads a Flow9 type, or says that the text has no reading.
pub fn checked_parse_flow9_type(s: &str) -> (r: Option<TypeRepr>)
    ensures
        r.deep_view() == flow9_type_of(s@),
{
    let chars = text::chars_of(s);
    read_flow9_type(chars.as_slice())
}

/// Reads a Flow9 type. Every text of ASCII characters has a reading.
pub fn parse_flow9_type(s: &str) -> (r: TypeRepr)
    requires
        text::is_ascii(s@) || flow9_type_of(s@) is Some,
    ensures
        flow9_type_of(s@) == Some(r.deep_view()),
{
    proof {
        if text::is_ascii(s@) {
            ascii_types_have_readings(s@);
        }
    }
    match checked_parse_flow9_type(s) {
        Some(t) => t,
        None => TypeRepr::Unit,
    }
}

// ─── Fields and parameters ────────────────────────────────────────────────────

/// A field from its text, where `n` fields come before it. A field without a colon is named
/// by its position.
pub open spec fn field_of(part: Seq<char>, n: nat) -> Option<FieldInfoModel> {
    let p = if text::starts_with(part, "mutable "@) {
        text::trim(text::without_prefix(part, "mutable "@))
    } else {
        part
    };
    match text::find_char_from(p, ':', 0) {
        Some(k) => match flow9_type_of(text::trim(p.skip(k + 1))) {
            Some(t) => Some(
                FieldInfoModel {
                    name: text::trim(p.take(k)),
                    type_repr: t,
                    visibility: Visibility::Public,
                },
            ),
            None => None,
        },
        None => Some(
            FieldInfoModel {
                name: text::decimal(n),
                type_repr: TypeReprModel::Infer,
                visibility: Visibility::Public,
            },
        ),
    }
}

/// The fields of the parts from the `i`-th on, behind those that are done; empty parts are
/// skipped.
pub open spec fn fields_from(parts: Seq<Seq<char>>, i: int, done: Seq<FieldInfoModel>) -> Option<
    Seq<FieldInfoModel>,
>
    decreases parts.len() - i,
{
    if i < 0 || i >= parts.len() {
        Some(done)
    } else {
        let part = text::trim(parts[i]);
        if part.len() == 0 {
            fields_from(parts, i + 1, done)
        } else {
            match field_of(part, done.len()) {
                Some(f) => fields_from(parts, i + 1, done.push(f)),
                None => None,
            }
        }
    }
}

/// The fields of a struct.
pub open spec fn struct_fields(s: Seq<char>) -> Option<Seq<FieldInfoModel>> {
    fields_from(pieces_of(text::trim(without_comments(s)), ','), 0, Seq::empty())
}

fn read_field(part: &[char], n: usize) -> (r: Option<FieldInfo>)
    ensures
        r.deep_view() == field_of(part@, n as nat),
{
    proof {
        reveal_strlit("mutable ");
    }
    let p = if text::chars_start_with(part, "mutable ") {
        text::trim_chars(text::strip_prefixes(part, "mutable "))
    } else {
        part
    };
    match text::find_char(p, ':', 0) {
        Some(k) => {
            assert(p@.skip(k + 1) =~= p@.subrange(k + 1, p@.len() as int));
            assert(p@.take(k as int) =~= p@.subrange(0, k as int));
            let name = text::string_of(text::trim_chars(slice_subrange(p, 0, k)));
            match read_flow9_type(text::trim_chars(slice_subrange(p, k + 1, p.len()))) {
                Some(t) => Some(
                    FieldInfo { name, type_repr: t, visibility: Visibility::Public },
                ),
                None => None,
            }
        },
        None => Some(
            FieldInfo {
                name: text::usize_string(n),
                type_repr: TypeRepr::Infer,
                visibility: Visibility::Public,
            },
        ),
    }
}

/// Reads struct fields such as `field1 : type1, field2 : type2`, or says that a type among
/// them has no reading.
pub fn checked_parse_struct_fields(fields_str: &str) -> (r: Option<Vec<FieldInfo>>)
    ensures
        r.deep_view() == struct_fields(fields_str@),
{
    let stripped = strip_comments(fields_str);
    let chars = text::chars_of(stripped.as_str());
    let s = text::trim_chars(chars.as_slice());
    let parts = split_respecting_nesting(s, ',');
    let mut fields: Vec<FieldInfo> = Vec::new();
    let mut i: usize = 0;
    let ghost texts = parts.deep_view();
    assert(fields.deep_view() =~= Seq::empty());
    while i < parts.len()
        invariant
            i <= parts@.len(),
            texts == parts.deep_view(),
            struct_fields(fields_str@) == fields_from(texts, i as int, fields.deep_view()),
        decreases parts@.len() - i,
    {
        let part = text::chars_of(parts[i].as_str());
        assert(texts[i as int] == parts@[i as int]@);
        let p = text::trim_chars(part.as_slice());
        if p.len() > 0 {
            assert(fields.deep_view().len() == fields@.len());
            match read_field(p, fields.len()) {
                Some(f) => {
                    append_item(&mut fields, f);
                },
                None => {
                    return None;
                },
            }
        }
        i += 1;
    }
    Some(fields)
}

/// Reads struct fields such as `field1 : type1, field2 : type2`. Every text of ASCII
/// characters has a reading.
pub fn parse_struct_fields(fields_str: &str) -> (r: Vec<FieldInfo>)
    requires
        text::is_ascii(fields_str@) || struct_fields(fields_str@) is Some,
    ensures
        struct_fields(fields_str@) == Some(r.deep_view()),
{
    proof {
        if text::is_ascii(fields_str@) {
            ascii_fields_have_readings(fields_str@);
        }
    }
    match checked_parse_struct_fields(fields_str) {
        Some(fields) => fields,
        None => Vec::new(),
    }
}

/// A parameter from its text.
pub open spec fn param_of(part: Seq<char>) -> Option<ParamInfoModel> {
    let p = text::trim(part);
    match text::find_char_from(p, ':', 0) {
        Some(k) => match flow9_type_of(text::trim(p.skip(k + 1))) {
            Some(t) => Some(param(Some(text::trim(p.take(k))), t)),
            None => None,
        },
        None => match flow9_type_of(p) {
            Some(t) => Some(param(None, t)),
            None => None,
        },
    }
}

pub open spec fn params_from(parts: Seq<Seq<char>>, i: int, done: Seq<ParamInfoModel>) -> Option<
    Seq<ParamInfoModel>,
>
    decreases parts.len() - i,
{
    if i < 0 || i >= parts.len() {
        Some(done)
    } else {
        match param_of(parts[i]) {
            Some(p) => params_from(parts, i + 1, done.push(p)),
            None => None,
        }
    }
}

/// The function with the parameters and the return type that the texts stand for.
pub open spec fn function_of(name: Seq<char>, params: Seq<char>, ret: Option<Seq<char>>) -> Option<
    FunctionInfoModel,
> {
    let read = if text::trim(params).len() == 0 {
        Some(Seq::empty())
    } else {
        params_from(pieces_of(params, ','), 0, Seq::empty())
    };
    match (read, ret) {
        (Some(ps), None) => Some(function_info(name, ps, None)),
        (Some(ps), Some(r)) => match flow9_type_of(r) {
            Some(t) => Some(function_info(name, ps, Some(t))),
            None => None,
        },
        (None, _) => None,
    }
}

fn read_param(part: &str) -> (r: Option<ParamInfo>)
    ensures
        r.deep_view() == param_of(part@),
{
    let chars = text::chars_of(part);
    let p = text::trim_chars(chars.as_slice());
    match text::find_char(p, ':', 0) {
        Some(k) => {
            assert(p@.skip(k + 1) =~= p@.subrange(k + 1, p@.len() as int));
            assert(p@.take(k as int) =~= p@.subrange(0, k as int));
            let name = text::string_of(text::trim_chars(slice_subrange(p, 0, k)));
            match read_flow9_type(text::trim_chars(slice_subrange(p, k + 1, p.len()))) {
                Some(t) => Some(ParamInfo { name: Some(name), type_repr: t, is_receiver: false }),
                None => None,
            }
        },
        None => match read_flow9_type(p) {
            Some(t) => Some(ParamInfo { name: None, type_repr: t, is_receiver: false }),
            None => None,
        },
    }
}

fn read_params(params_str: &str) -> (r: Option<Vec<ParamInfo>>)
    ensures
        r.deep_view() == (if text::trim(params_str@).len() == 0 {
            Some(Seq::empty())
        } else {
            params_from(pieces_of(params_str@, ','), 0, Seq::empty())
        }),
{
    let chars = text::chars_of(params_str);
    let mut params: Vec<ParamInfo> = Vec::new();
    assert(params.deep_view() =~= Seq::empty());
    if text::trim_chars(chars.as_slice()).len() == 0 {
        return Some(params);
    }
    let parts = split_respecting_nesting(chars.as_slice(), ',');
    let ghost texts = parts.deep_view();
    let mut i: usize = 0;
    while i < parts.len()
        invariant
            i <= parts@.len(),
            texts == parts.deep_view(),
            texts == pieces_of(params_str@, ','),
            text::trim(params_str@).len() != 0,
            params_from(texts, 0, Seq::empty()) == params_from(
                texts,
                i as int,
                params.deep_view(),
            ),
        decreases parts@.len() - i,
    {
        assert(texts[i as int] == parts@[i as int]@);
        match read_param(parts[i].as_str()) {
            Some(p) => {
                append_item(&mut params, p);
            },
            None => {
                return None;
            },
        }
        i += 1;
    }
    Some(params)
}

/// Builds a function from the texts of its parameters and its return type, or says that a
/// type among them has no reading.
pub fn checked_build_function_info(name: &str, params_str: &str, ret_str: Option<&str>) -> (r:
    Option<FunctionInfo>)
    ensures
        r.deep_view() == function_of(name@, params_str@, ret_str.deep_view()),
{
    let params = match read_params(params_str) {
        Some(params) => params,
        None => {
            return None;
        },
    };
    match ret_str {
        None => Some(make_function_info(name, params, None)),
        Some(r) => match checked_parse_flow9_type(r) {
            Some(t) => Some(make_function_info(name, params, Some(t))),
            None => None,
        },
    }
}

// ─── Laws ─────────────────────────────────────────────────────────────────────

/// Every text of ASCII characters stands for a type.
pub proof fn ascii_types_have_readings(text: Seq<char>)
    requires
        text::is_ascii(text),
    ensures
        flow9_type_of(text) is Some,
    decreases text.len(), 1nat, 0int,
{
    let s = text::trim(text);
    text::lemma_trim_len(text);
    text::lemma_trim_ascii(text);
    reveal_strlit("ref ");
    if s.len() == 0 || all_marks(s) || s == "void"@ {
    } else if s[0] == '[' && s.last() == ']' {
        ascii_types_have_readings(s.subrange(1, s.len() - 1));
    } else if text::starts_with(s, "ref "@) {
        assert(text::is_ascii(s.skip(4)));
        ascii_types_have_readings(s.skip(4));
    } else {
        match top_level_arrow(s) {
            Some(k) => {
                lemma_arrow_from(s, 0, 0, 0, 0);
                lemma_cut_ascii(s, 0, k as nat);
                lemma_cut_ascii(s, 0, (k + 2) as nat);
                let params = text::trim(s.take(k));
                let ret = text::trim(s.skip(k + 2));
                assert(text::is_ascii(s.take(k)));
                assert(text::is_ascii(s.skip(k + 2)));
                text::lemma_trim_ascii(s.take(k));
                text::lemma_trim_ascii(s.skip(k + 2));
                text::lemma_trim_len(s.take(k));
                text::lemma_trim_len(s.skip(k + 2));
                if params.len() > 0 && params[0] == '(' && params.last() == ')' {
                    assert(params.len() > 1);
                    lemma_ascii_list(params.subrange(1, params.len() - 1), text.len());
                } else {
                    ascii_types_have_readings(params);
                }
                ascii_types_have_readings(ret);
            },
            None => match text::find_char_from(s, '<', 0) {
                Some(k) => if s.last() == '>' {
                    text::lemma_find_char_from(s, '<', 0);
                    lemma_ascii_list(s.subrange(k + 1, s.len() - 1), text.len());
                },
                None => {},
            },
        }
    }
}

proof fn lemma_ascii_pieces(s: Seq<char>, delim: char)
    requires
        text::is_ascii(s),
    ensures
        forall|i: int|
            0 <= i < pieces_of(s, delim).len() ==> text::is_ascii(
                #[trigger] pieces_of(s, delim)[i],
            ) && pieces_of(s, delim)[i].len() <= s.len(),
{
    text::lemma_nested_split(s, delim);
    text::lemma_nested_ascii(s, delim);
    let parts = text::nested_split(s, delim);
    assert forall|i: int| 0 <= i < pieces_of(s, delim).len() implies text::is_ascii(
        #[trigger] pieces_of(s, delim)[i],
    ) && pieces_of(s, delim)[i].len() <= s.len() by {
        assert(pieces_of(s, delim)[i] == parts[i]);
    }
}

proof fn lemma_ascii_list(s: Seq<char>, limit: nat)
    requires
        text::is_ascii(s),
        s.len() < limit,
    ensures
        type_list_of(s, limit) is Some,
    decreases limit, 0nat, 1int + pieces_of(s, ',').len(),
{
    lemma_ascii_pieces(s, ',');
    if text::trim(s).len() > 0 {
        lemma_ascii_types_from(pieces_of(s, ','), 0, Seq::empty(), limit);
    }
}

proof fn lemma_ascii_item(p: Seq<char>)
    requires
        text::is_ascii(p),
    ensures
        text::is_ascii(item_type(p)),
{
    let t = text::trim(p);
    text::lemma_trim_ascii(p);
    text::lemma_find_char_from(t, ':', 0);
    match text::find_char_from(t, ':', 0) {
        Some(k) => {
            assert(text::is_ascii(t.skip(k + 1)));
            text::lemma_trim_ascii(t.skip(k + 1));
        },
        None => {},
    }
}

proof fn lemma_ascii_types_from(
    parts: Seq<Seq<char>>,
    i: int,
    done: Seq<TypeReprModel>,
    limit: nat,
)
    requires
        forall|j: int|
            0 <= j < parts.len() ==> text::is_ascii(#[trigger] parts[j]) && parts[j].len() < limit,
    ensures
        types_from(parts, i, done, limit) is Some,
    decreases limit, 0nat, parts.len() - i,
{
    if 0 <= i < parts.len() {
        assert(text::is_ascii(parts[i]));
        lemma_item_type(parts[i]);
        lemma_ascii_item(parts[i]);
        ascii_types_have_readings(item_type(parts[i]));
        lemma_ascii_types_from(
            parts,
            i + 1,
            done.push(flow9_type_of(item_type(parts[i]))->Some_0),
            limit,
        );
    }
}

/// Every text of ASCII characters stands for the fields of a struct.
pub proof fn ascii_fields_have_readings(s: Seq<char>)
    requires
        text::is_ascii(s),
    ensures
        struct_fields(s) is Some,
{
    let stripped = without_comments(s);
    lemma_comments_ascii(s);
    text::lemma_trim_ascii(stripped);
    let parts = pieces_of(text::trim(stripped), ',');
    lemma_ascii_pieces(text::trim(stripped), ',');
    lemma_ascii_fields_from(parts, 0, Seq::empty());
}

proof fn lemma_ascii_fields_from(parts: Seq<Seq<char>>, i: int, done: Seq<FieldInfoModel>)
    requires
        forall|j: int| 0 <= j < parts.len() ==> text::is_ascii(#[trigger] parts[j]),
    ensures
        fields_from(parts, i, done) is Some,
    decreases parts.len() - i,
{
    if 0 <= i < parts.len() {
        assert(text::is_ascii(parts[i]));
        let part = text::trim(parts[i]);
        text::lemma_trim_ascii(parts[i]);
        if part.len() == 0 {
            lemma_ascii_fields_from(parts, i + 1, done);
        } else {
            lemma_ascii_field(part, done.len());
            lemma_ascii_fields_from(
                parts,
                i + 1,
                done.push(field_of(part, done.len())->Some_0),
            );
        }
    }
}

proof fn lemma_ascii_field(part: Seq<char>, n: nat)
    requires
        text::is_ascii(part),
    ensures
        field_of(part, n) is Some,
{
    let short = text::without_prefix(part, "mutable "@);
    text::lemma_prefix_ascii(part, "mutable "@);
    text::lemma_trim_ascii(short);
    let p = if text::starts_with(part, "mutable "@) {
        text::trim(short)
    } else {
        part
    };
    text::lemma_find_char_from(p, ':', 0);
    match text::find_char_from(p, ':', 0) {
        Some(k) => {
            assert(text::is_ascii(p.skip(k + 1)));
            text::lemma_trim_ascii(p.skip(k + 1));
            ascii_types_have_readings(text::trim(p.skip(k + 1)));
        },
        None => {},
    }
}

} // verus!

//! Flow9 types that are read back as they are written.
use vstd::prelude::*;

use super::scan::{
    blanks_end, char_at, cut, expected_char, id_at, id_end, is_blank, is_id_continue, is_id_start,
    keyword_at, lemma_runs, marks_end, FailureModel,
};
use super::types::{
    argument_type_at, argument_types_rest, arrow_at, function_type_at, keyword_type,
    name_and_colon, parenthesized_at, type_at, type_list_at, types_rest,
};
use crate::extractors::flow9::{flow9_text, flow9_texts, type_repr_of};
use crate::extractors::flow9_ast::Flow9TypeModel;
use crate::text;
use crate::types::TypeReprModel;

verus! {

// ─── Readable types ───────────────────────────────────────────────────────────

/// Whether a text is an identifier.
pub open spec fn is_id(name: Seq<char>) -> bool {
    &&& name.len() > 0
    &&& is_id_start(name[0])
    &&& forall|i: int| 0 <= i < name.len() ==> is_id_continue(#[trigger] name[i])
}

/// The words that are types by themselves.
pub open spec fn type_words() -> Seq<Seq<char>> {
    seq!["bool"@, "int"@, "double"@, "string"@, "flow"@, "void"@, "native"@]
}

/// Whether a text is an identifier that means nothing of its own in a type.
pub open spec fn is_type_id(name: Seq<char>) -> bool {
    &&& is_id(name)
    &&& name != "ref"@
    &&& forall|k: int| 0 <= k < type_words().len() ==> name != #[trigger] type_words()[k]
}

/// Whether a type can be written: its names are identifiers, its variables question marks, and
/// a type that takes arguments has some.
pub open spec fn is_writable(t: Flow9TypeModel) -> bool
    decreases t,
{
    match t {
        Flow9TypeModel::Named(name) => is_type_id(name),
        Flow9TypeModel::TypeVar(name) => name.len() > 0 && forall|i: int|
            0 <= i < name.len() ==> #[trigger] name[i] == '?',
        Flow9TypeModel::Array(inner) => is_writable(*inner),
        Flow9TypeModel::Ref(inner) => is_writable(*inner),
        Flow9TypeModel::FnType(params, ret) => are_writable(params) && is_writable(*ret),
        Flow9TypeModel::Parameterized(name, args) => is_type_id(name) && args.len() > 0
            && are_writable(args),
        _ => true,
    }
}

pub open spec fn are_writable(ts: Seq<Flow9TypeModel>) -> bool
    decreases ts,
{
    forall|i: int| 0 <= i < ts.len() ==> is_writable(#[trigger] ts[i])
}

proof fn lemma_each_writable(ts: Seq<Flow9TypeModel>, i: int)
    requires
        are_writable(ts),
        0 <= i < ts.len(),
    ensures
        is_writable(ts[i]),
{
}

/// How the types from the `k`-th on are written, each behind a comma.
pub open spec fn tail_text(ts: Seq<Flow9TypeModel>, k: int) -> Seq<char>
    decreases ts.len() - k,
{
    if k < 0 || k >= ts.len() {
        Seq::empty()
    } else {
        seq![',', ' '] + flow9_text(ts[k]) + tail_text(ts, k + 1)
    }
}

/// How a list of types is written.
pub open spec fn list_text(ts: Seq<Flow9TypeModel>) -> Seq<char> {
    if ts.len() == 0 {
        Seq::empty()
    } else {
        flow9_text(ts[0]) + tail_text(ts, 1)
    }
}

proof fn lemma_list_from(ts: Seq<Flow9TypeModel>, k: int)
    requires
        1 <= k <= ts.len(),
    ensures
        text::join(flow9_texts(ts).take(k), ", "@) + tail_text(ts, k) == text::join(
            flow9_texts(ts),
            ", "@,
        ),
    decreases ts.len() - k,
{
    let texts = flow9_texts(ts);
    reveal_with_fuel(flow9_texts, 2);
    reveal_strlit(", ");
    assert(", "@ =~= seq![',', ' ']);
    if k == ts.len() {
        assert(texts.take(k) =~= texts);
        assert(text::join(texts, ", "@) + tail_text(ts, k) =~= text::join(texts, ", "@));
    } else {
        lemma_list_from(ts, k + 1);
        assert(texts.take(k + 1).drop_last() =~= texts.take(k));
        assert(texts.take(k + 1).last() == flow9_text(ts[k]));
        assert(text::join(texts.take(k), ", "@) + tail_text(ts, k) =~= text::join(
            texts.take(k + 1),
            ", "@,
        ) + tail_text(ts, k + 1));
    }
}

proof fn lemma_list(ts: Seq<Flow9TypeModel>)
    ensures
        text::join(flow9_texts(ts), ", "@) == list_text(ts),
{
    reveal_with_fuel(flow9_texts, 2);
    if ts.len() > 0 {
        lemma_list_from(ts, 1);
        assert(flow9_texts(ts).take(1)[0] == flow9_text(ts[0]));
    } else {
        assert(text::join(flow9_texts(ts), ", "@) =~= Seq::empty());
    }
}

/// How a type is written, character by character.
pub open spec fn shape(t: Flow9TypeModel) -> Seq<char> {
    match t {
        Flow9TypeModel::Int => seq!['i', 'n', 't'],
        Flow9TypeModel::Double => seq!['d', 'o', 'u', 'b', 'l', 'e'],
        Flow9TypeModel::Bool => seq!['b', 'o', 'o', 'l'],
        Flow9TypeModel::Str => seq!['s', 't', 'r', 'i', 'n', 'g'],
        Flow9TypeModel::Flow => seq!['f', 'l', 'o', 'w'],
        Flow9TypeModel::NativeType => seq!['n', 'a', 't', 'i', 'v', 'e'],
        Flow9TypeModel::Void => seq!['v', 'o', 'i', 'd'],
        Flow9TypeModel::Named(name) => name,
        Flow9TypeModel::TypeVar(name) => name,
        Flow9TypeModel::Array(inner) => seq!['['] + flow9_text(*inner) + seq![']'],
        Flow9TypeModel::Ref(inner) => seq!['r', 'e', 'f', ' '] + flow9_text(*inner),
        Flow9TypeModel::FnType(params, ret) => seq!['('] + list_text(params) + seq![
            ')',
            ' ',
            '-',
            '>',
            ' ',
        ] + flow9_text(*ret),
        Flow9TypeModel::Parameterized(name, args) => name + seq!['<'] + list_text(args) + seq!['>'],
    }
}

pub(crate) proof fn lemma_shape(t: Flow9TypeModel)
    ensures
        flow9_text(t) == shape(t),
{
    reveal_with_fuel(flow9_text, 2);
    reveal_with_fuel(flow9_texts, 2);
    match t {
        Flow9TypeModel::Array(inner) => {
            reveal_strlit("[");
            reveal_strlit("]");
            assert("["@ =~= seq!['[']);
            assert("]"@ =~= seq![']']);
        },
        Flow9TypeModel::Ref(inner) => {
            reveal_strlit("ref ");
            assert("ref "@ =~= seq!['r', 'e', 'f', ' ']);
        },
        Flow9TypeModel::FnType(params, ret) => {
            lemma_list(params);
            reveal_strlit("(");
            reveal_strlit(") -> ");
            assert("("@ =~= seq!['(']);
            assert(") -> "@ =~= seq![')', ' ', '-', '>', ' ']);
        },
        Flow9TypeModel::Parameterized(name, args) => {
            lemma_list(args);
            reveal_strlit("<");
            reveal_strlit(">");
            assert("<"@ =~= seq!['<']);
            assert(">"@ =~= seq!['>']);
        },
        _ => {
            lemma_words();
        },
    }
}

proof fn lemma_words()
    ensures
        "bool"@ == seq!['b', 'o', 'o', 'l'],
        "int"@ == seq!['i', 'n', 't'],
        "double"@ == seq!['d', 'o', 'u', 'b', 'l', 'e'],
        "string"@ == seq!['s', 't', 'r', 'i', 'n', 'g'],
        "flow"@ == seq!['f', 'l', 'o', 'w'],
        "void"@ == seq!['v', 'o', 'i', 'd'],
        "native"@ == seq!['n', 'a', 't', 'i', 'v', 'e'],
        "ref"@ == seq!['r', 'e', 'f'],
{
    reveal_strlit("bool");
    reveal_strlit("int");
    reveal_strlit("double");
    reveal_strlit("string");
    reveal_strlit("flow");
    reveal_strlit("void");
    reveal_strlit("native");
    reveal_strlit("ref");
    assert("bool"@ =~= seq!['b', 'o', 'o', 'l']);
    assert("int"@ =~= seq!['i', 'n', 't']);
    assert("double"@ =~= seq!['d', 'o', 'u', 'b', 'l', 'e']);
    assert("string"@ =~= seq!['s', 't', 'r', 'i', 'n', 'g']);
    assert("flow"@ =~= seq!['f', 'l', 'o', 'w']);
    assert("void"@ =~= seq!['v', 'o', 'i', 'd']);
    assert("native"@ =~= seq!['n', 'a', 't', 'i', 'v', 'e']);
    assert("ref"@ =~= seq!['r', 'e', 'f']);
}

/// A written type starts with no blank and no character that stands between types.
pub(crate) proof fn lemma_start(t: Flow9TypeModel)
    requires
        is_writable(t),
    ensures
        flow9_text(t).len() > 0,
        !is_blank(flow9_text(t)[0]),
        flow9_text(t)[0] != ')',
        flow9_text(t)[0] != ':',
    decreases t,
{
    lemma_shape(t);
    match t {
        Flow9TypeModel::Named(name) => {
            assert(is_id_start(name[0]));
        },
        Flow9TypeModel::TypeVar(name) => {
            assert(name[0] == '?');
        },
        Flow9TypeModel::Parameterized(name, args) => {
            assert(is_id_start(name[0]));
            assert(flow9_text(t)[0] == name[0]);
        },
        _ => {},
    }
}

// ─── Positions ────────────────────────────────────────────────────────────────

/// Whether a type may end at a position: the text does, or a character follows that stands
/// between types.
pub open spec fn closes(s: Seq<char>, p: int) -> bool {
    &&& 0 <= p <= s.len()
    &&& p < s.len() ==> s[p] == ',' || s[p] == ')' || s[p] == ']' || s[p] == '>' || s[p] == ';'
        || s[p] == '=' || s[p] == '{'
}

pub(crate) proof fn lemma_parts_occur(s: Seq<char>, a: Seq<char>, b: Seq<char>, p: int)
    requires
        text::occurs_at(s, a + b, p),
    ensures
        text::occurs_at(s, a, p),
        text::occurs_at(s, b, p + a.len()),
{
    let all = s.subrange(p, p + (a + b).len());
    assert(s.subrange(p, p + a.len()) =~= a) by {
        assert forall|i: int| 0 <= i < a.len() implies s.subrange(p, p + a.len())[i] == a[i] by {
            assert(all[i] == (a + b)[i]);
        }
    }
    assert(s.subrange(p + a.len(), p + a.len() + b.len()) =~= b) by {
        assert forall|i: int| 0 <= i < b.len() implies s.subrange(
            p + a.len(),
            p + a.len() + b.len(),
        )[i] == b[i] by {
            assert(all[a.len() + i] == (a + b)[a.len() + i]);
        }
    }
}

/// The characters of a text that stands at a position.
pub(crate) proof fn lemma_chars(s: Seq<char>, a: Seq<char>, p: int)
    requires
        text::occurs_at(s, a, p),
    ensures
        forall|i: int| 0 <= i < a.len() ==> s[p + i] == #[trigger] a[i],
{
    let part = s.subrange(p, p + a.len());
    assert forall|i: int| 0 <= i < a.len() implies s[p + i] == #[trigger] a[i] by {
        assert(part[i] == s[p + i]);
    }
}

/// In a text of ASCII characters bytes can be cut off anywhere.
pub(crate) proof fn lemma_cut_some(s: Seq<char>, at: int, n: nat)
    requires
        text::is_ascii(s),
    ensures
        cut(s, at, n) is Some,
    decreases n,
{
    if 0 <= at < s.len() && n > 0 {
        lemma_cut_some(s, at + 1, (n - 1) as nat);
    }
}

proof fn lemma_id_end(s: Seq<char>, i: int, e: int)
    requires
        0 <= i <= e <= s.len(),
        forall|j: int| i <= j < e ==> is_id_continue(#[trigger] s[j]),
        e < s.len() ==> !is_id_continue(s[e]),
    ensures
        id_end(s, i) == e,
    decreases e - i,
{
    if i < e {
        assert(is_id_continue(s[i]));
        lemma_id_end(s, i + 1, e);
    }
}

/// An identifier that no other character of identifiers follows is read as it is.
pub(crate) proof fn lemma_read_id(s: Seq<char>, p: int, name: Seq<char>)
    requires
        is_id(name),
        text::occurs_at(s, name, p),
        p + name.len() < s.len() ==> !is_id_continue(s[p + name.len()]),
    ensures
        blanks_end(s, p) == p,
        id_at(s, p) == Ok::<(Seq<char>, int), FailureModel>((name, p + name.len())),
        s[p] == name[0],
{
    lemma_chars(s, name, p);
    assert(s[p + 0] == name[0]);
    let e = p + name.len();
    assert forall|j: int| p + 1 <= j < e implies is_id_continue(#[trigger] s[j]) by {
        assert(s[p + (j - p)] == name[j - p]);
    }
    lemma_id_end(s, p + 1, e);
}

/// A word stands as a keyword only where it is the whole identifier.
pub(crate) proof fn lemma_not_keyword(s: Seq<char>, p: int, name: Seq<char>, word: Seq<char>)
    requires
        is_id(name),
        text::occurs_at(s, name, p),
        p + name.len() < s.len() ==> !is_id_continue(s[p + name.len()]),
        forall|i: int| 0 <= i < word.len() ==> is_id_continue(#[trigger] word[i]),
        name != word,
    ensures
        !keyword_at(s, p, word),
{
    if keyword_at(s, p, word) {
        lemma_chars(s, name, p);
        lemma_chars(s, word, p);
        let n = name.len() as int;
        let w = word.len() as int;
        if w < n {
            assert(s[p + w] == name[w]);
        } else if w > n {
            assert(s[p + n] == word[n]);
            assert(is_id_continue(word[n]));
        } else {
            assert forall|i: int| 0 <= i < n implies name[i] == word[i] by {
                assert(s[p + i] == name[i]);
                assert(s[p + i] == word[i]);
            }
            assert(name =~= word);
        }
    }
}

/// An identifier that is no word of types is none.
proof fn lemma_no_keyword_type(s: Seq<char>, p: int, name: Seq<char>)
    requires
        is_id(name),
        forall|k: int| 0 <= k < type_words().len() ==> name != #[trigger] type_words()[k],
        text::occurs_at(s, name, p),
        p + name.len() < s.len() ==> !is_id_continue(s[p + name.len()]),
    ensures
        keyword_type(s, p) is None,
{
    lemma_words();
    assert(name != type_words()[0] && name != type_words()[1] && name != type_words()[2]);
    assert(name != type_words()[3] && name != type_words()[4] && name != type_words()[5]);
    assert(name != type_words()[6]);
    lemma_not_keyword(s, p, name, "bool"@);
    lemma_not_keyword(s, p, name, "int"@);
    lemma_not_keyword(s, p, name, "double"@);
    lemma_not_keyword(s, p, name, "string"@);
    lemma_not_keyword(s, p, name, "flow"@);
    lemma_not_keyword(s, p, name, "void"@);
    lemma_not_keyword(s, p, name, "native"@);
}

/// Whether a type is a word.
pub open spec fn is_word_type(t: Flow9TypeModel) -> bool {
    ||| t is Int || t is Double || t is Bool || t is Str
    ||| t is Flow || t is NativeType || t is Void
}

/// A word that is a type is read as that type, and as no other.
#[verifier::spinoff_prover]
proof fn lemma_keyword_type(t: Flow9TypeModel, s: Seq<char>, p: int)
    requires
        is_word_type(t),
        text::occurs_at(s, shape(t), p),
        closes(s, p + shape(t).len()),
    ensures
        keyword_type(s, p) == Some((t, p + shape(t).len())),
        is_id(shape(t)),
{
    let name = shape(t);
    lemma_words();
    assert(is_id(name));
    let e = p + name.len();
    assert(blanks_end(s, e) == e);
    assert(keyword_at(s, p, name));
    if !(t is Bool) {
        assert(name != "bool"@) by {
            assert(name.len() == 4 ==> name[0] != 'b');
        }
        lemma_not_keyword(s, p, name, "bool"@);
    }
    if !(t is Int) {
        assert(name != "int"@) by {
            assert(name.len() != 3);
        }
        lemma_not_keyword(s, p, name, "int"@);
    }
    if !(t is Double) {
        assert(name != "double"@) by {
            assert(name[0] != 'd');
        }
        lemma_not_keyword(s, p, name, "double"@);
    }
    if !(t is Str) {
        assert(name != "string"@) by {
            assert(name[0] != 's');
        }
        lemma_not_keyword(s, p, name, "string"@);
    }
    if !(t is Flow) {
        assert(name != "flow"@) by {
            assert(name[0] != 'f');
        }
        lemma_not_keyword(s, p, name, "flow"@);
    }
    if !(t is Void) {
        assert(name != "void"@) by {
            assert(name[0] != 'v');
        }
        lemma_not_keyword(s, p, name, "void"@);
    }
}

// ─── Reading back ─────────────────────────────────────────────────────────────

/// Whether a type is read at a position, up to another.
#[verifier::opaque]
pub open spec fn is_read(s: Seq<char>, p: int, t: Flow9TypeModel, e: int) -> bool {
    type_at(s, p) == Ok::<(Flow9TypeModel, int), FailureModel>((t, e))
}

/// Whether a type is read as an argument.
#[verifier::opaque]
spec fn is_read_as_argument(s: Seq<char>, p: int, t: Flow9TypeModel, e: int) -> bool {
    argument_type_at(s, p) == Ok::<(Flow9TypeModel, int), FailureModel>((t, e))
}

/// Whether the arguments of a function type are read, behind those that are done.
#[verifier::opaque]
spec fn are_params_read(
    s: Seq<char>,
    p: int,
    done: Seq<Flow9TypeModel>,
    ts: Seq<Flow9TypeModel>,
    e: int,
) -> bool {
    argument_types_rest(s, p, done) == Ok::<(Seq<Flow9TypeModel>, int), FailureModel>((ts, e))
}

/// Whether the arguments of a type are read, behind those that are done.
#[verifier::opaque]
spec fn are_args_read(
    s: Seq<char>,
    p: int,
    done: Seq<Flow9TypeModel>,
    ts: Seq<Flow9TypeModel>,
    e: int,
) -> bool {
    types_rest(s, p, done) == Ok::<(Seq<Flow9TypeModel>, int), FailureModel>((ts, e))
}

/// Behind blanks there are no more.
proof fn lemma_blanks_end(s: Seq<char>, at: int)
    ensures
        blanks_end(s, blanks_end(s, at)) == blanks_end(s, at),
    decreases s.len() - at,
{
    if 0 <= at < s.len() && is_blank(s[at]) {
        lemma_blanks_end(s, at + 1);
    }
}

/// A blank before a type is skipped.
proof fn lemma_blank_before(s: Seq<char>, at: int)
    requires
        0 <= at < s.len(),
        is_blank(s[at]),
    ensures
        type_at(s, at) == type_at(s, at + 1),
        blanks_end(s, at) == blanks_end(s, at + 1),
{
    let p = blanks_end(s, at);
    lemma_runs(s, at + 1);
    lemma_blanks_end(s, at);
    if p < s.len() {
        lemma_runs(s, p + 1);
    }
    assert(blanks_end(s, at + 1) == p);
    if let Ok((name, n)) = id_at(s, p) {
        assert(p < n <= s.len());
    }
}

proof fn lemma_read_word(t: Flow9TypeModel, s: Seq<char>, p: int)
    requires
        is_word_type(t),
        text::occurs_at(s, shape(t), p),
        closes(s, p + shape(t).len()),
    ensures
        is_read(s, p, t, p + shape(t).len()),
{
    reveal(is_read);
    lemma_keyword_type(t, s, p);
    lemma_read_id(s, p, shape(t));
}

proof fn lemma_read_named(name: Seq<char>, s: Seq<char>, p: int)
    requires
        is_type_id(name),
        text::occurs_at(s, name, p),
        closes(s, p + name.len()),
    ensures
        is_read(s, p, Flow9TypeModel::Named(name), p + name.len()),
{
    reveal(is_read);
    lemma_read_id(s, p, name);
    lemma_no_keyword_type(s, p, name);
    lemma_words();
    lemma_not_keyword(s, p, name, "ref"@);
    let e = p + name.len();
    assert(blanks_end(s, e) == e);
    assert(char_at(s, e) != Some('<'));
}

proof fn lemma_marks(s: Seq<char>, i: int, e: int)
    requires
        0 <= i <= e <= s.len(),
        forall|j: int| i <= j < e ==> #[trigger] s[j] == '?',
        e < s.len() ==> s[e] != '?',
    ensures
        marks_end(s, i) == e,
    decreases e - i,
{
    if i < e {
        assert(s[i] == '?');
        lemma_marks(s, i + 1, e);
    }
}

proof fn lemma_read_var(name: Seq<char>, s: Seq<char>, p: int)
    requires
        is_writable(Flow9TypeModel::TypeVar(name)),
        text::occurs_at(s, name, p),
        closes(s, p + name.len()),
    ensures
        is_read(s, p, Flow9TypeModel::TypeVar(name), p + name.len()),
{
    reveal(is_read);
    lemma_chars(s, name, p);
    let e = p + name.len();
    assert forall|j: int| p <= j < e implies #[trigger] s[j] == '?' by {
        assert(s[p + (j - p)] == name[j - p]);
    }
    assert(s[p] == '?');
    lemma_marks(s, p, e);
    assert(blanks_end(s, e) == e);
    assert(name[0] == '?' && name[name.len() - 1] == '?');
    text::lemma_trim_same(name);
    assert(s.subrange(p, e) == name);
}

proof fn lemma_read_array(inner: Box<Flow9TypeModel>, s: Seq<char>, p: int)
    requires
        text::occurs_at(s, seq!['['] + flow9_text(*inner) + seq![']'], p),
        closes(s, p + flow9_text(*inner).len() + 2),
        is_read(s, p + 1, *inner, p + 1 + flow9_text(*inner).len()),
    ensures
        is_read(s, p, Flow9TypeModel::Array(inner), p + flow9_text(*inner).len() + 2),
{
    reveal(is_read);
    let x = flow9_text(*inner);
    lemma_parts_occur(s, seq!['['] + x, seq![']'], p);
    lemma_parts_occur(s, seq!['['], x, p);
    lemma_chars(s, seq!['['], p);
    lemma_chars(s, seq![']'], p + 1 + x.len());
    assert(s[p + 0] == seq!['['][0]);
    let e = p + 1 + x.len();
    assert(s[e + 0] == seq![']'][0]);
    assert(blanks_end(s, p) == p);
    assert(blanks_end(s, e) == e);
    assert(blanks_end(s, e + 1) == e + 1);
    assert(expected_char(s, e, ']') == Ok::<int, FailureModel>(e + 1));
}

proof fn lemma_read_ref(inner: Box<Flow9TypeModel>, s: Seq<char>, p: int)
    requires
        text::occurs_at(s, seq!['r', 'e', 'f', ' '] + flow9_text(*inner), p),
        is_read(s, p + 4, *inner, p + 4 + flow9_text(*inner).len()),
    ensures
        is_read(s, p, Flow9TypeModel::Ref(inner), p + 4 + flow9_text(*inner).len()),
{
    reveal(is_read);
    let x = flow9_text(*inner);
    let word = seq!['r', 'e', 'f'];
    assert(seq!['r', 'e', 'f', ' '] + x =~= word + (seq![' '] + x));
    lemma_parts_occur(s, word, seq![' '] + x, p);
    lemma_chars(s, seq![' '] + x, p + 3);
    assert(s[p + 3 + 0] == (seq![' '] + x)[0]);
    lemma_words();
    assert(is_id(word));
    assert forall|k: int| 0 <= k < type_words().len() implies word != #[trigger] type_words()[k] by {
        assert(type_words()[k].len() == 3 ==> type_words()[k][0] == 'i');
    }
    lemma_read_id(s, p, word);
    lemma_no_keyword_type(s, p, word);
    assert(keyword_at(s, p, "ref"@));
    lemma_blank_before(s, p + 3);
}

pub(crate) proof fn lemma_arrow(s: Seq<char>, at: int, ret: Flow9TypeModel, e: int)
    requires
        text::is_ascii(s),
        text::occurs_at(s, seq!['-', '>', ' '], at),
        is_read(s, at + 3, ret, e),
    ensures
        arrow_at(s, at) == Ok::<(Option<Flow9TypeModel>, int), FailureModel>((Some(ret), e)),
        blanks_end(s, at) == at,
{
    reveal(is_read);
    reveal_strlit("->");
    assert("->"@ =~= seq!['-', '>']);
    assert(seq!['-', '>', ' '] =~= seq!['-', '>'] + seq![' ']);
    lemma_parts_occur(s, seq!['-', '>'], seq![' '], at);
    lemma_chars(s, seq!['-', '>'], at);
    lemma_chars(s, seq![' '], at + 2);
    assert(s[at + 0] == seq!['-', '>'][0]);
    assert(s[at + 2 + 0] == seq![' '][0]);
    lemma_cut_some(s, at, 2);
    lemma_blank_before(s, at + 2);
}

/// A written type is no name before a colon.
proof fn lemma_no_name(t: Flow9TypeModel, s: Seq<char>, p: int)
    requires
        is_writable(t),
        text::is_ascii(s),
        text::occurs_at(s, flow9_text(t), p),
        closes(s, p + flow9_text(t).len()),
    ensures
        blanks_end(s, p) == p,
        name_and_colon(s, p) == Ok::<(Option<Seq<char>>, int), FailureModel>((None, p)),
{
    lemma_shape(t);
    lemma_start(t);
    lemma_chars(s, flow9_text(t), p);
    assert(s[p + 0] == flow9_text(t)[0]);
    let e = p + flow9_text(t).len();
    match t {
        Flow9TypeModel::Named(name) => {
            lemma_read_id(s, p, name);
            assert(blanks_end(s, e) == e);
        },
        Flow9TypeModel::Parameterized(name, args) => {
            let rest = seq!['<'] + list_text(args) + seq!['>'];
            assert(flow9_text(t) =~= name + rest);
            lemma_parts_occur(s, name, rest, p);
            lemma_chars(s, rest, p + name.len());
            assert(s[p + name.len() + 0] == rest[0]);
            lemma_read_id(s, p, name);
        },
        Flow9TypeModel::Ref(inner) => {
            let x = flow9_text(*inner);
            let word = seq!['r', 'e', 'f'];
            lemma_start(*inner);
            assert(flow9_text(t) =~= word + (seq![' '] + x));
            lemma_parts_occur(s, word, seq![' '] + x, p);
            lemma_chars(s, seq![' '] + x, p + 3);
            assert(s[p + 3 + 0] == (seq![' '] + x)[0]);
            assert(s[p + 3 + 1] == (seq![' '] + x)[1]);
            assert(is_id(word));
            lemma_read_id(s, p, word);
            assert(blanks_end(s, p + 3) == blanks_end(s, p + 4));
            assert(blanks_end(s, p + 4) == p + 4);
        },
        Flow9TypeModel::TypeVar(name) => {
            lemma_cut_some(s, p, 20);
        },
        Flow9TypeModel::Array(inner) => {
            lemma_cut_some(s, p, 20);
        },
        Flow9TypeModel::FnType(params, ret) => {
            lemma_cut_some(s, p, 20);
        },
        _ => {
            lemma_keyword_type(t, s, p);
            lemma_read_id(s, p, shape(t));
            assert(blanks_end(s, e) == e);
        },
    }
}

/// A type alone is an argument without a name.
proof fn lemma_argument(t: Flow9TypeModel, s: Seq<char>, p: int)
    requires
        is_writable(t),
        text::is_ascii(s),
        text::occurs_at(s, flow9_text(t), p),
        closes(s, p + flow9_text(t).len()),
        is_read(s, p, t, p + flow9_text(t).len()),
    ensures
        is_read_as_argument(s, p, t, p + flow9_text(t).len()),
{
    reveal(is_read);
    reveal(is_read_as_argument);
    lemma_no_name(t, s, p);
}

/// Where the tail of a list starts: with a comma, or behind the list.
proof fn lemma_tail_start(ts: Seq<Flow9TypeModel>, k: int, s: Seq<char>, p: int, last: char)
    requires
        0 <= k <= ts.len(),
        text::occurs_at(s, tail_text(ts, k) + seq![last], p),
        last == ')' || last == '>',
    ensures
        closes(s, p),
        p < s.len(),
        k < ts.len() ==> s[p] == ',' && s[p + 1] == ' ' && text::occurs_at(
            s,
            flow9_text(ts[k]),
            p + 2,
        ) && text::occurs_at(
            s,
            tail_text(ts, k + 1) + seq![last],
            p + 2 + flow9_text(ts[k]).len(),
        ),
        k == ts.len() ==> s[p] == last,
{
    let all = tail_text(ts, k) + seq![last];
    lemma_chars(s, all, p);
    assert(s[p + 0] == all[0]);
    if k < ts.len() {
        let x = flow9_text(ts[k]);
        let rest = tail_text(ts, k + 1) + seq![last];
        assert(all =~= seq![',', ' '] + (x + rest));
        assert(s[p + 1] == all[1]);
        lemma_parts_occur(s, seq![',', ' '], x + rest, p);
        lemma_parts_occur(s, x, rest, p + 2);
    } else {
        assert(all =~= seq![last]);
    }
}

/// One more argument of a function type is read.
proof fn lemma_param_step(
    s: Seq<char>,
    p: int,
    q: int,
    n: int,
    t: Flow9TypeModel,
    done: Seq<Flow9TypeModel>,
)
    requires
        0 <= p < q < n <= s.len(),
        s[p] == ',',
        blanks_end(s, p + 1) == q,
        s[q] != ')',
        is_read_as_argument(s, q, t, n),
    ensures
        forall|ts: Seq<Flow9TypeModel>, e: int| #[trigger]
            are_params_read(s, n, done.push(t), ts, e) ==> are_params_read(s, p, done, ts, e),
{
    reveal(are_params_read);
    reveal(is_read_as_argument);
}

proof fn lemma_params_end(s: Seq<char>, p: int, done: Seq<Flow9TypeModel>)
    requires
        0 <= p < s.len(),
        s[p] != ',',
    ensures
        are_params_read(s, p, done, done, p),
        are_args_read(s, p, done, done, p),
{
    reveal(are_params_read);
    reveal(are_args_read);
}

proof fn lemma_read_params(ts: Seq<Flow9TypeModel>, k: int, s: Seq<char>, p: int)
    requires
        are_writable(ts),
        text::is_ascii(s),
        1 <= k <= ts.len(),
        text::occurs_at(s, tail_text(ts, k) + seq![')'], p),
    ensures
        are_params_read(s, p, ts.take(k), ts, p + tail_text(ts, k).len()),
    decreases ts, ts.len() - k,
{
    lemma_tail_start(ts, k, s, p, ')');
    if k < ts.len() {
        let t = ts[k];
        let x = flow9_text(t);
        assert(is_writable(t));
        lemma_start(t);
        lemma_chars(s, x, p + 2);
        assert(s[p + 2 + 0] == x[0]);
        assert(blanks_end(s, p + 2) == p + 2);
        assert(blanks_end(s, p + 1) == p + 2);
        let n = p + 2 + x.len();
        lemma_tail_start(ts, k + 1, s, n, ')');
        lemma_read(t, s, p + 2);
        lemma_argument(t, s, p + 2);
        lemma_param_step(s, p, p + 2, n, t, ts.take(k));
        lemma_read_params(ts, k + 1, s, n);
        assert(ts.take(k).push(t) =~= ts.take(k + 1));
        assert(tail_text(ts, k).len() == 2 + x.len() + tail_text(ts, k + 1).len());
    } else {
        lemma_params_end(s, p, ts.take(k));
        assert(ts.take(k) =~= ts);
    }
}

/// One more argument of a type is read.
proof fn lemma_arg_step(s: Seq<char>, p: int, n: int, t: Flow9TypeModel, done: Seq<Flow9TypeModel>)
    requires
        0 <= p,
        p + 2 < n <= s.len(),
        s[p] == ',',
        s[p + 1] == ' ',
        is_read(s, p + 2, t, n),
    ensures
        forall|ts: Seq<Flow9TypeModel>, e: int| #[trigger]
            are_args_read(s, n, done.push(t), ts, e) ==> are_args_read(s, p, done, ts, e),
{
    reveal(is_read);
    reveal(are_args_read);
    lemma_blank_before(s, p + 1);
}

proof fn lemma_read_args(ts: Seq<Flow9TypeModel>, k: int, s: Seq<char>, p: int)
    requires
        are_writable(ts),
        text::is_ascii(s),
        1 <= k <= ts.len(),
        text::occurs_at(s, tail_text(ts, k) + seq!['>'], p),
    ensures
        are_args_read(s, p, ts.take(k), ts, p + tail_text(ts, k).len()),
    decreases ts, ts.len() - k,
{
    lemma_tail_start(ts, k, s, p, '>');
    if k < ts.len() {
        let t = ts[k];
        let x = flow9_text(t);
        assert(is_writable(t));
        let n = p + 2 + x.len();
        lemma_tail_start(ts, k + 1, s, n, '>');
        lemma_start(t);
        lemma_read(t, s, p + 2);
        lemma_arg_step(s, p, n, t, ts.take(k));
        lemma_read_args(ts, k + 1, s, n);
        assert(ts.take(k).push(t) =~= ts.take(k + 1));
        assert(tail_text(ts, k).len() == 2 + x.len() + tail_text(ts, k + 1).len());
    } else {
        lemma_params_end(s, p, ts.take(k));
        assert(ts.take(k) =~= ts);
    }
}

/// A function type, of which the parts are read.
proof fn lemma_read_function(
    params: Seq<Flow9TypeModel>,
    ret: Flow9TypeModel,
    s: Seq<char>,
    p: int,
    close: int,
    e: int,
)
    requires
        text::is_ascii(s),
        0 <= p < close < s.len(),
        s[p] == '(',
        s[close] == ')',
        close + 1 < s.len(),
        s[close + 1] == ' ',
        text::occurs_at(s, seq!['-', '>', ' '], close + 2),
        is_read(s, close + 5, ret, e),
        params.len() == 0 ==> close == p + 1,
        params.len() > 0 ==> ({
            let n = p + 1 + flow9_text(params[0]).len();
            &&& !is_blank(s[p + 1])
            &&& s[p + 1] != ')'
            &&& p + 1 < n <= s.len()
            &&& is_read_as_argument(s, p + 1, params[0], n)
            &&& are_params_read(s, n, params.take(1), params, close)
        }),
    ensures
        is_read(s, p, Flow9TypeModel::FnType(params, Box::new(ret)), e),
{
    reveal(is_read);
    let t = Flow9TypeModel::FnType(params, Box::new(ret));
    lemma_arrow(s, close + 2, ret, e);
    assert(blanks_end(s, close + 1) == blanks_end(s, close + 2));
    if params.len() == 0 {
        assert(params =~= Seq::empty());
        lemma_no_params(s, p + 1, close + 2, ret, e);
    } else {
        let n = p + 1 + flow9_text(params[0]).len();
        assert(blanks_end(s, p + 1) == p + 1);
        assert(blanks_end(s, close) == close);
        assert(params.take(1) =~= seq![params[0]]);
        assert(expected_char(s, close, ')') == Ok::<int, FailureModel>(close + 1));
        lemma_some_params(s, p + 1, n, params, close, close + 2, ret, e);
    }
    lemma_parenthesis(s, p);
}

proof fn lemma_parenthesis(s: Seq<char>, p: int)
    requires
        0 <= p < s.len(),
        s[p] == '(',
    ensures
        type_at(s, p) == parenthesized_at(s, p + 1),
{
    assert(blanks_end(s, p) == p);
}

proof fn lemma_no_params(s: Seq<char>, at: int, arrow: int, ret: Flow9TypeModel, e: int)
    requires
        0 <= at < s.len(),
        s[at] == ')',
        blanks_end(s, at + 1) == arrow,
        arrow_at(s, arrow) == Ok::<(Option<Flow9TypeModel>, int), FailureModel>((Some(ret), e)),
    ensures
        parenthesized_at(s, at) == Ok::<(Flow9TypeModel, int), FailureModel>(
            (Flow9TypeModel::FnType(Seq::empty(), Box::new(ret)), e),
        ),
{
    assert(blanks_end(s, at) == at);
}

proof fn lemma_some_params(
    s: Seq<char>,
    at: int,
    n: int,
    params: Seq<Flow9TypeModel>,
    close: int,
    arrow: int,
    ret: Flow9TypeModel,
    e: int,
)
    requires
        0 <= at < n <= s.len(),
        params.len() > 0,
        blanks_end(s, at) == at,
        s[at] != ')',
        is_read_as_argument(s, at, params[0], n),
        are_params_read(s, n, seq![params[0]], params, close),
        expected_char(s, close, ')') == Ok::<int, FailureModel>(close + 1),
        blanks_end(s, close + 1) == arrow,
        at < arrow <= s.len(),
        arrow_at(s, arrow) == Ok::<(Option<Flow9TypeModel>, int), FailureModel>((Some(ret), e)),
    ensures
        parenthesized_at(s, at) == Ok::<(Flow9TypeModel, int), FailureModel>(
            (Flow9TypeModel::FnType(params, Box::new(ret)), e),
        ),
{
    reveal(is_read_as_argument);
    reveal(are_params_read);
    assert(function_type_at(s, at) == Ok::<(Flow9TypeModel, int), FailureModel>(
        (Flow9TypeModel::FnType(params, Box::new(ret)), e),
    ));
}

/// A type with arguments, of which the parts are read.
proof fn lemma_read_parameterized(name: Seq<char>, args: Seq<Flow9TypeModel>, s: Seq<char>, p: int, close: int)
    requires
        is_type_id(name),
        text::occurs_at(s, name, p),
        p + name.len() < close < s.len(),
        s[p + name.len()] == '<',
        s[close] == '>',
        closes(s, close + 1),
        args.len() > 0,
        ({
            let q = p + name.len() + 1;
            let n = q + flow9_text(args[0]).len();
            &&& q < n <= s.len()
            &&& is_read(s, q, args[0], n)
            &&& are_args_read(s, n, args.take(1), args, close)
        }),
    ensures
        is_read(s, p, Flow9TypeModel::Parameterized(name, args), close + 1),
{
    reveal(is_read);
    reveal(are_args_read);
    let q = p + name.len();
    lemma_read_id(s, p, name);
    lemma_no_keyword_type(s, p, name);
    lemma_words();
    lemma_not_keyword(s, p, name, "ref"@);
    assert(blanks_end(s, q) == q);
    assert(blanks_end(s, close) == close);
    assert(blanks_end(s, close + 1) == close + 1);
    assert(args.take(1) =~= seq![args[0]]);
    assert(expected_char(s, q, '<') == Ok::<int, FailureModel>(q + 1));
    assert(expected_char(s, close, '>') == Ok::<int, FailureModel>(close + 1));
    assert(type_list_at(s, q) == Ok::<(Seq<Flow9TypeModel>, int), FailureModel>((args, close + 1)));
}

/// A type that stands somewhere as it is written is read there, to its end.
pub proof fn lemma_read(t: Flow9TypeModel, s: Seq<char>, p: int)
    requires
        is_writable(t),
        text::is_ascii(s),
        text::occurs_at(s, flow9_text(t), p),
        closes(s, p + flow9_text(t).len()),
    ensures
        is_read(s, p, t, p + flow9_text(t).len()),
    decreases t, 0int,
{
    lemma_shape(t);
    let e = p + flow9_text(t).len();
    match t {
        Flow9TypeModel::Named(name) => {
            lemma_read_named(name, s, p);
        },
        Flow9TypeModel::TypeVar(name) => {
            lemma_read_var(name, s, p);
        },
        Flow9TypeModel::Array(inner) => {
            let x = flow9_text(*inner);
            lemma_parts_occur(s, seq!['['] + x, seq![']'], p);
            lemma_parts_occur(s, seq!['['], x, p);
            lemma_chars(s, seq![']'], p + 1 + x.len());
            assert(s[p + 1 + x.len() + 0] == seq![']'][0]);
            lemma_read(*inner, s, p + 1);
            lemma_read_array(inner, s, p);
        },
        Flow9TypeModel::Ref(inner) => {
            lemma_parts_occur(s, seq!['r', 'e', 'f', ' '], flow9_text(*inner), p);
            lemma_read(*inner, s, p + 4);
            lemma_read_ref(inner, s, p);
        },
        Flow9TypeModel::FnType(params, ret) => {
            let list = list_text(params);
            let x = flow9_text(*ret);
            let close = p + 1 + list.len();
            let arrow = seq![')', ' ', '-', '>', ' '];
            lemma_parts_occur(s, seq!['('] + list + arrow, x, p);
            lemma_parts_occur(s, seq!['('] + list, arrow, p);
            lemma_parts_occur(s, seq!['('], list, p);
            lemma_chars(s, seq!['('], p);
            assert(s[p + 0] == seq!['('][0]);
            lemma_chars(s, arrow, close);
            assert(s[close + 0] == arrow[0] && s[close + 1] == arrow[1]);
            assert(arrow =~= seq![')', ' '] + seq!['-', '>', ' ']);
            lemma_parts_occur(s, seq![')', ' '], seq!['-', '>', ' '], close);
            lemma_read(*ret, s, close + 5);
            if params.len() > 0 {
                let y = flow9_text(params[0]);
                let n = p + 1 + y.len();
                lemma_each_writable(params, 0);
                lemma_start(params[0]);
                lemma_parts_occur(s, y, tail_text(params, 1), p + 1);
                lemma_chars(s, y, p + 1);
                assert(s[p + 1 + 0] == y[0]);
                lemma_joined(s, tail_text(params, 1), ')', n);
                lemma_tail_start(params, 1, s, n, ')');
                lemma_read(params[0], s, p + 1);
                lemma_argument(params[0], s, p + 1);
                lemma_read_params(params, 1, s, n);
            }
            lemma_read_function(params, *ret, s, p, close, e);
        },
        Flow9TypeModel::Parameterized(name, args) => {
            let list = list_text(args);
            let q = p + name.len();
            let close = q + 1 + list.len();
            let y = flow9_text(args[0]);
            let n = q + 1 + y.len();
            lemma_parts_occur(s, name + seq!['<'] + list, seq!['>'], p);
            lemma_parts_occur(s, name + seq!['<'], list, p);
            lemma_parts_occur(s, name, seq!['<'], p);
            lemma_chars(s, seq!['<'], q);
            assert(s[q + 0] == seq!['<'][0]);
            lemma_chars(s, seq!['>'], close);
            assert(s[close + 0] == seq!['>'][0]);
            lemma_each_writable(args, 0);
            lemma_start(args[0]);
            lemma_parts_occur(s, y, tail_text(args, 1), q + 1);
            lemma_joined(s, tail_text(args, 1), '>', n);
            lemma_tail_start(args, 1, s, n, '>');
            lemma_read(args[0], s, q + 1);
            lemma_read_args(args, 1, s, n);
            lemma_read_parameterized(name, args, s, p, close);
        },
        _ => {
            lemma_read_word(t, s, p);
        },
    }
}

/// A text and the character behind it stand where they do.
proof fn lemma_joined(s: Seq<char>, a: Seq<char>, c: char, p: int)
    requires
        text::occurs_at(s, a, p),
        p + a.len() < s.len(),
        s[p + a.len()] == c,
    ensures
        text::occurs_at(s, a + seq![c], p),
{
    let part = s.subrange(p, p + a.len() + 1);
    lemma_chars(s, a, p);
    assert(part =~= a + seq![c]) by {
        assert forall|i: int| 0 <= i < a.len() implies part[i] == a[i] by {
            assert(s[p + i] == a[i]);
        }
    }
}

// ─── Laws ─────────────────────────────────────────────────────────────────────

proof fn lemma_ascii_both(a: Seq<char>, b: Seq<char>)
    requires
        text::is_ascii(a),
        text::is_ascii(b),
    ensures
        text::is_ascii(a + b),
{
    assert forall|i: int| 0 <= i < (a + b).len() implies (#[trigger] (a + b)[i] as u32) < 128 by {
        if i < a.len() {
            assert((a + b)[i] == a[i]);
        } else {
            assert((a + b)[i] == b[i - a.len()]);
        }
    }
}

proof fn lemma_id_ascii(name: Seq<char>)
    requires
        is_id(name),
    ensures
        text::is_ascii(name),
{
    assert forall|i: int| 0 <= i < name.len() implies (#[trigger] name[i] as u32) < 128 by {
        assert(is_id_continue(name[i]));
    }
}

/// A written type holds only ASCII characters.
pub proof fn lemma_ascii(t: Flow9TypeModel)
    requires
        is_writable(t),
    ensures
        text::is_ascii(flow9_text(t)),
    decreases t, 0int,
{
    lemma_shape(t);
    match t {
        Flow9TypeModel::Named(name) => {
            lemma_id_ascii(name);
        },
        Flow9TypeModel::TypeVar(name) => {
            assert forall|i: int| 0 <= i < name.len() implies (#[trigger] name[i] as u32) < 128 by {
                assert(name[i] == '?');
            }
        },
        Flow9TypeModel::Array(inner) => {
            lemma_ascii(*inner);
            lemma_ascii_both(seq!['['], flow9_text(*inner));
            lemma_ascii_both(seq!['['] + flow9_text(*inner), seq![']']);
        },
        Flow9TypeModel::Ref(inner) => {
            lemma_ascii(*inner);
            lemma_ascii_both(seq!['r', 'e', 'f', ' '], flow9_text(*inner));
        },
        Flow9TypeModel::FnType(params, ret) => {
            let list = list_text(params);
            let arrow = seq![')', ' ', '-', '>', ' '];
            lemma_list_ascii(params);
            lemma_ascii(*ret);
            lemma_ascii_both(seq!['('], list);
            lemma_ascii_both(seq!['('] + list, arrow);
            lemma_ascii_both(seq!['('] + list + arrow, flow9_text(*ret));
        },
        Flow9TypeModel::Parameterized(name, args) => {
            let list = list_text(args);
            lemma_list_ascii(args);
            lemma_id_ascii(name);
            lemma_ascii_both(name, seq!['<']);
            lemma_ascii_both(name + seq!['<'], list);
            lemma_ascii_both(name + seq!['<'] + list, seq!['>']);
        },
        _ => {},
    }
}

proof fn lemma_list_ascii(ts: Seq<Flow9TypeModel>)
    requires
        are_writable(ts),
    ensures
        text::is_ascii(list_text(ts)),
    decreases ts, ts.len() + 1,
{
    if ts.len() > 0 {
        assert(is_writable(ts[0]));
        lemma_ascii(ts[0]);
        lemma_tail_ascii(ts, 1);
        lemma_ascii_both(flow9_text(ts[0]), tail_text(ts, 1));
    }
}

proof fn lemma_tail_ascii(ts: Seq<Flow9TypeModel>, k: int)
    requires
        are_writable(ts),
        0 <= k <= ts.len(),
    ensures
        text::is_ascii(tail_text(ts, k)),
    decreases ts, ts.len() - k,
{
    if k < ts.len() {
        assert(is_writable(ts[k]));
        lemma_ascii(ts[k]);
        lemma_tail_ascii(ts, k + 1);
        lemma_ascii_both(seq![',', ' '], flow9_text(ts[k]));
        lemma_ascii_both(seq![',', ' '] + flow9_text(ts[k]), tail_text(ts, k + 1));
    }
}

/// A type that is written and read again is the same type, read to the end of the text.
pub proof fn written_types_are_read_back(t: Flow9TypeModel)
    requires
        is_writable(t),
    ensures
        type_at(flow9_text(t), 0) == Ok::<(Flow9TypeModel, int), FailureModel>(
            (t, flow9_text(t).len() as int),
        ),
{
    let s = flow9_text(t);
    lemma_ascii(t);
    assert(s.subrange(0, s.len() as int) =~= s);
    lemma_read(t, s, 0);
    reveal(is_read);
}

/// Each of the seven words for types is read as a type of its own, which is written as the word
/// and has the word as its name in every language; only `void` is the unit type there.
pub proof fn words_for_types_are_told_apart(k: int, l: int)
    requires
        0 <= k < 7,
        0 <= l < 7,
    ensures
        ({
            let a = type_words()[k];
            let b = type_words()[l];
            &&& type_at(a, 0) matches Ok((t, n)) && n == a.len() && flow9_text(t) == a && (
            if a == "void"@ {
                type_repr_of(t) == TypeReprModel::Unit
            } else {
                type_repr_of(t) == TypeReprModel::Named(a)
            })
            &&& k != l ==> type_at(a, 0)->Ok_0.0 != type_at(b, 0)->Ok_0.0
        }),
{
    let t = lemma_word_read(k);
    let u = lemma_word_read(l);
    if k != l {
        lemma_words_differ(k, l);
        assert(flow9_text(t) != flow9_text(u));
    }
}

proof fn lemma_words_differ(k: int, l: int)
    requires
        0 <= k < 7,
        0 <= l < 7,
        k != l,
    ensures
        type_words()[k] != type_words()[l],
{
    lemma_words();
    if type_words()[k] == type_words()[l] {
        assert(type_words()[k][0] == type_words()[l][0]);
    }
}

proof fn lemma_word_read(k: int) -> (t: Flow9TypeModel)
    requires
        0 <= k < 7,
    ensures
        ({
            let a = type_words()[k];
            &&& type_at(a, 0) == Ok::<(Flow9TypeModel, int), FailureModel>((t, a.len() as int))
            &&& flow9_text(t) == a
            &&& type_repr_of(t) == (if a == "void"@ {
                TypeReprModel::Unit
            } else {
                TypeReprModel::Named(a)
            })
        }),
{
    lemma_words();
    let t = if k == 0 {
        Flow9TypeModel::Bool
    } else if k == 1 {
        Flow9TypeModel::Int
    } else if k == 2 {
        Flow9TypeModel::Double
    } else if k == 3 {
        Flow9TypeModel::Str
    } else if k == 4 {
        Flow9TypeModel::Flow
    } else if k == 5 {
        Flow9TypeModel::Void
    } else {
        Flow9TypeModel::NativeType
    };
    lemma_shape(t);
    assert(flow9_text(t) == type_words()[k]);
    written_types_are_read_back(t);
    if k != 5 {
        assert(type_words()[k] != "void"@) by {
            assert(type_words()[k][0] != 'v');
        }
    }
    t
}

} // verus!

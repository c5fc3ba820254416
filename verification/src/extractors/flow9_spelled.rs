//! Which types, fields and parameters pieces of Flow9 text spell.
use vstd::prelude::*;

use super::flow9_types::{
    all_marks, arrow_from, field_of, flow9_type_of, item_type, param_of, pieces_of,
    top_level_arrow, type_list_of, types_from,
};
use crate::flow9_parser::scan::{cut, lemma_cut_ascii};
use crate::text;
use crate::texts::texts_without_brackets_are_split;
use crate::types::{FieldInfoModel, ParamInfoModel, TypeReprModel, Visibility};

verus! {

// ─── Words ────────────────────────────────────────────────────────────────────

/// Whether a text is a word of ASCII letters, digits and underscores.
pub open spec fn is_plain(s: Seq<char>) -> bool {
    s.len() > 0 && forall|i: int|
        0 <= i < s.len() ==> text::is_ascii_alphanumeric(#[trigger] s[i]) || s[i] == '_'
}

proof fn lemma_plain(s: Seq<char>)
    requires
        is_plain(s),
    ensures
        text::trim(s) == s,
        !all_marks(s),
        forall|i: int| 0 <= i < s.len() ==> (#[trigger] s[i] as u32) < 128,
        forall|i: int|
            0 <= i < s.len() ==> !text::is_whitespace(#[trigger] s[i]) && s[i] != '(' && s[i] != ')'
                && s[i] != '[' && s[i] != ']' && s[i] != '<' && s[i] != '>' && s[i] != '-' && s[i]
                != ':' && s[i] != ',' && s[i] != '?',
{
    assert(text::is_ascii_alphanumeric(s[0]) || s[0] == '_');
    assert(text::is_ascii_alphanumeric(s.last()) || s.last() == '_');
    text::lemma_trim_same(s);
    assert(s[0] != '?');
}

proof fn lemma_no_arrow(s: Seq<char>, i: int)
    requires
        0 <= i,
        forall|k: int|
            0 <= k < s.len() ==> #[trigger] s[k] != '(' && s[k] != ')' && s[k] != '[' && s[k] != ']'
                && s[k] != '<' && s[k] != '>' && s[k] != '-',
    ensures
        arrow_from(s, i, 0, 0, 0) is None,
    decreases s.len() - i,
{
    if i < s.len() - 1 {
        lemma_no_arrow(s, i + 1);
    }
}

/// A word is the type of its name; `void` and nothing at all are the empty type.
pub proof fn words_spell_types(s: Seq<char>)
    requires
        is_plain(s),
    ensures
        s != "void"@ ==> flow9_type_of(s) == Some(TypeReprModel::Named(s)),
        flow9_type_of("void"@) == Some(TypeReprModel::Unit),
        flow9_type_of(Seq::empty()) == Some(TypeReprModel::Unit),
{
    reveal_strlit("void");
    reveal_strlit("ref ");
    lemma_plain(s);
    lemma_no_arrow(s, 0);
    text::lemma_find_char_from(s, '<', 0);
    let v = "void"@;
    assert(v[0] == 'v' && v[1] == 'o' && v[2] == 'i' && v[3] == 'd');
    assert(is_plain(v));
    lemma_plain(v);
    if text::starts_with(s, "ref "@) {
        assert(s.subrange(0, 4)[3] == s[3]);
        assert("ref "@[3] == ' ');
        assert(!text::is_whitespace(s[3]));
    }
    assert(text::trim(Seq::empty()) =~= Seq::empty());
}

// ─── Types with parts ─────────────────────────────────────────────────────────

/// A type in brackets is an array of it, and one behind `ref` is a reference to it.
pub proof fn brackets_spell_arrays(s: Seq<char>, t: TypeReprModel)
    requires
        flow9_type_of(s) == Some(t),
    ensures
        flow9_type_of(seq!['['] + s + seq![']']) == Some(
            TypeReprModel::Applied(Box::new(TypeReprModel::Named("Array"@)), seq![t]),
        ),
        is_plain(s) ==> flow9_type_of("ref "@ + s) == Some(
            TypeReprModel::Applied(Box::new(TypeReprModel::Named("ref"@)), seq![t]),
        ),
{
    reveal_strlit("void");
    reveal_strlit("ref ");
    let whole = seq!['['] + s + seq![']'];
    assert(whole[0] == '[' && whole.last() == ']');
    text::lemma_trim_same(whole);
    assert("void"@[0] == 'v');
    assert(whole.subrange(1, whole.len() - 1) =~= s);
    if is_plain(s) {
        lemma_plain(s);
        let r = "ref "@ + s;
        assert(r[0] == 'r' && r.last() == s.last());
        assert(!text::is_whitespace(s[s.len() - 1]));
        text::lemma_trim_same(r);
        assert(r.subrange(0, 4) =~= "ref "@);
        assert(r.skip(4) =~= s);
    }
}

proof fn lemma_one_piece(s: Seq<char>)
    requires
        is_plain(s),
    ensures
        pieces_of(s, ',') == seq![s],
        item_type(s) == s,
{
    lemma_plain(s);
    texts_without_brackets_are_split(s, ',');
    crate::texts::texts_are_split_at_separators(Seq::empty(), s, ',');
    text::lemma_find_char_from(s, ':', 0);
}

/// A name with a word between angle brackets is the type of that name with that argument.
pub proof fn angles_spell_arguments(name: Seq<char>, s: Seq<char>)
    requires
        is_plain(name),
        is_plain(s),
        s != "void"@,
    ensures
        flow9_type_of(name + seq!['<'] + s + seq!['>']) == Some(
            TypeReprModel::Applied(
                Box::new(TypeReprModel::Named(name)),
                seq![TypeReprModel::Named(s)],
            ),
        ),
{
    reveal_strlit("void");
    reveal_strlit("ref ");
    let whole = name + seq!['<'] + s + seq!['>'];
    let n = name.len() as int;
    lemma_plain(name);
    lemma_plain(s);
    assert(whole[0] == name[0]);
    assert(whole[n] == '<');
    assert(whole.last() == '>');
    text::lemma_trim_same(whole);
    if text::starts_with(whole, "ref "@) {
        assert(whole.subrange(0, 4)[3] == whole[3]);
        assert("ref "@[3] == ' ');
        if 3 < n {
            assert(whole[3] == name[3]);
        } else if n < 3 && 3 < n + 1 + s.len() {
            assert(whole[3] == s[2 - n]);
        }
    }
    assert(whole != "void"@) by {
        assert("void"@.last() == 'd');
    }
    lemma_inside_angles(name, s, 0);
    text::lemma_find_char_from(whole, '<', 0);
    assert(text::find_char_from(whole, '<', 0) == Some(n)) by {
        let k = text::find_char_from(whole, '<', 0)->Some_0;
        if k < n {
            assert(whole[k] == name[k]);
        }
    }
    assert(whole.take(n) =~= name);
    assert(whole.subrange(n + 1, whole.len() - 1) =~= s);
    lemma_one_piece(s);
    words_spell_types(s);
    let parts = pieces_of(s, ',');
    reveal_with_fuel(types_from, 2);
    assert(Seq::<TypeReprModel>::empty().push(TypeReprModel::Named(s)) =~= seq![
        TypeReprModel::Named(s),
    ]);
    assert(types_from(parts, 0, Seq::empty(), whole.len()) == Some(
        seq![TypeReprModel::Named(s)],
    ));
    assert(type_list_of(s, whole.len()) == Some(seq![TypeReprModel::Named(s)]));
}

proof fn lemma_inside_angles(name: Seq<char>, s: Seq<char>, i: int)
    requires
        is_plain(name),
        is_plain(s),
        0 <= i,
    ensures
        arrow_from(
            name + seq!['<'] + s + seq!['>'],
            i,
            0,
            if i <= name.len() {
                0
            } else {
                1
            },
            0,
        ) is None,
    decreases name.len() + s.len() + 2 - i,
{
    let whole = name + seq!['<'] + s + seq!['>'];
    let n = name.len() as int;
    lemma_plain(name);
    lemma_plain(s);
    if i < whole.len() - 1 {
        if i < n {
            assert(whole[i] == name[i]);
        } else if i == n {
            assert(whole[i] == '<');
        } else {
            assert(whole[i] == s[i - n - 1]);
        }
        lemma_inside_angles(name, s, i + 1);
    }
}

/// A word in parentheses, an arrow and a word are the type of a function from the first to the
/// second.
pub proof fn arrows_spell_functions(a: Seq<char>, b: Seq<char>)
    requires
        is_plain(a),
        is_plain(b),
        a != "void"@,
        b != "void"@,
    ensures
        flow9_type_of(seq!['('] + a + seq![')', ' ', '-', '>', ' '] + b) == Some(
            TypeReprModel::FnPointer {
                params: seq![TypeReprModel::Named(a)],
                ret: Box::new(TypeReprModel::Named(b)),
            },
        ),
{
    reveal_strlit("void");
    reveal_strlit("ref ");
    let whole = seq!['('] + a + seq![')', ' ', '-', '>', ' '] + b;
    let n = a.len() as int;
    let k = n + 3;
    lemma_plain(a);
    lemma_plain(b);
    assert(whole[0] == '(');
    assert(whole.last() == b.last());
    assert(!text::is_whitespace(b[b.len() - 1]));
    text::lemma_trim_same(whole);
    assert("void"@[0] == 'v');
    if text::starts_with(whole, "ref "@) {
        assert(whole.subrange(0, 4)[0] == whole[0]);
        assert("ref "@[0] == 'r');
    }
    assert(whole[n + 1] == ')' && whole[n + 2] == ' ' && whole[n + 3] == '-' && whole[n + 4]
        == '>' && whole[n + 5] == ' ');
    lemma_inside_parens(a, b, 0);
    assert(top_level_arrow(whole) == Some(k));
    assert(text::is_ascii(whole)) by {
        assert forall|i: int| 0 <= i < whole.len() implies (#[trigger] whole[i] as u32) < 128 by {
            if 1 <= i <= n {
                assert(whole[i] == a[i - 1]);
            } else if i > n + 5 {
                assert(whole[i] == b[i - n - 6]);
            }
        }
    }
    lemma_cut_ascii(whole, 0, k as nat);
    lemma_cut_ascii(whole, 0, (k + 2) as nat);
    assert(cut(whole, 0, k as nat) == Some(0 + k));
    let left = seq!['('] + a + seq![')'];
    assert(whole.take(k) =~= left + seq![' ']);
    assert(whole.skip(k + 2) =~= seq![' '] + b);
    assert(text::trim(whole.take(k)) == left) by {
        crate::texts::whitespace_is_trimmed(Seq::empty(), left, seq![' ']);
        assert(Seq::<char>::empty() + left + seq![' '] =~= left + seq![' ']);
    }
    assert(text::trim(whole.skip(k + 2)) == b) by {
        crate::texts::whitespace_is_trimmed(seq![' '], b, Seq::empty());
        assert(seq![' '] + b + Seq::<char>::empty() =~= seq![' '] + b);
    }
    assert(left[0] == '(' && left.last() == ')');
    assert(left.subrange(1, left.len() - 1) =~= a);
    lemma_one_piece(a);
    words_spell_types(a);
    words_spell_types(b);
    reveal_with_fuel(types_from, 2);
    assert(Seq::<TypeReprModel>::empty().push(TypeReprModel::Named(a)) =~= seq![
        TypeReprModel::Named(a),
    ]);
    assert(type_list_of(a, whole.len()) == Some(seq![TypeReprModel::Named(a)]));
}

proof fn lemma_inside_parens(a: Seq<char>, b: Seq<char>, i: int)
    requires
        is_plain(a),
        is_plain(b),
        0 <= i <= a.len() + 3,
    ensures
        arrow_from(
            seq!['('] + a + seq![')', ' ', '-', '>', ' '] + b,
            i,
            if 1 <= i <= a.len() + 1 {
                1
            } else {
                0
            },
            0,
            0,
        ) == Some(a.len() as int + 3),
    decreases a.len() + 3 - i,
{
    let whole = seq!['('] + a + seq![')', ' ', '-', '>', ' '] + b;
    let n = a.len() as int;
    lemma_plain(a);
    lemma_plain(b);
    assert(whole[0] == '(');
    assert(whole[n + 1] == ')' && whole[n + 2] == ' ' && whole[n + 3] == '-' && whole[n + 4]
        == '>');
    if i < n + 3 {
        if 1 <= i <= n {
            assert(whole[i] == a[i - 1]);
        }
        lemma_inside_parens(a, b, i + 1);
    }
}

// ─── Fields and parameters ────────────────────────────────────────────────────

proof fn lemma_colon(name: Seq<char>, ty: Seq<char>)
    requires
        is_plain(name),
        is_plain(ty),
    ensures
        ({
            let s = name + seq![':'] + ty;
            &&& text::trim(s) == s
            &&& text::find_char_from(s, ':', 0) == Some(name.len() as int)
            &&& s.take(name.len() as int) == name
            &&& s.skip(name.len() as int + 1) == ty
        }),
{
    let s = name + seq![':'] + ty;
    let n = name.len() as int;
    lemma_plain(name);
    lemma_plain(ty);
    assert(s[0] == name[0] && s.last() == ty.last());
    assert(!text::is_whitespace(ty[ty.len() - 1]));
    text::lemma_trim_same(s);
    assert(s[n] == ':');
    text::lemma_find_char_from(s, ':', 0);
    let k = text::find_char_from(s, ':', 0)->Some_0;
    if k < n {
        assert(s[k] == name[k]);
    }
    assert(s.take(n) =~= name);
    assert(s.skip(n + 1) =~= ty);
}

/// A field is a name, a colon and a type, and a public one; the word `mutable` before it does not
/// count, and one without a colon is named by its position.
pub proof fn fields_are_spelled(name: Seq<char>, ty: Seq<char>, n: nat)
    requires
        is_plain(name),
        is_plain(ty),
        ty != "void"@,
    ensures
        field_of(name + seq![':'] + ty, n) == Some(
            FieldInfoModel {
                name,
                type_repr: TypeReprModel::Named(ty),
                visibility: Visibility::Public,
            },
        ),
        field_of("mutable "@ + (name + seq![':'] + ty), n) == Some(
            FieldInfoModel {
                name,
                type_repr: TypeReprModel::Named(ty),
                visibility: Visibility::Public,
            },
        ),
        field_of(name, n) matches Some(f) && f.name == text::decimal(n) && f.type_repr
            == TypeReprModel::Infer,
{
    reveal_strlit("mutable ");
    let s = name + seq![':'] + ty;
    let m = "mutable "@;
    lemma_colon(name, ty);
    lemma_plain(name);
    lemma_plain(ty);
    words_spell_types(ty);
    assert(m[7] == ' ');
    assert(!text::starts_with(s, m)) by {
        if text::starts_with(s, m) {
            assert(s.subrange(0, 8)[7] == s[7]);
            if 7 < name.len() {
                assert(s[7] == name[7]);
            } else if 7 > name.len() {
                assert(s[7] == ty[7 - name.len() - 1]);
            }
        }
    }
    assert(!text::starts_with(name, m)) by {
        if text::starts_with(name, m) {
            assert(name.subrange(0, 8)[7] == name[7]);
        }
    }
    let whole = m + s;
    assert(whole.subrange(0, 8) =~= m);
    assert(whole.skip(8) =~= s);
    assert(text::without_prefix(whole, m) == s) by {
        reveal_with_fuel(text::without_prefix, 2);
    }
    text::lemma_find_char_from(name, ':', 0);
}

/// A parameter is a name, a colon and a type, or a type alone.
pub proof fn parameters_are_spelled(name: Seq<char>, ty: Seq<char>)
    requires
        is_plain(name),
        is_plain(ty),
        ty != "void"@,
    ensures
        param_of(name + seq![':'] + ty) == Some(
            ParamInfoModel {
                name: Some(name),
                type_repr: TypeReprModel::Named(ty),
                is_receiver: false,
            },
        ),
        param_of(ty) == Some(
            ParamInfoModel { name: None, type_repr: TypeReprModel::Named(ty), is_receiver: false },
        ),
{
    lemma_colon(name, ty);
    lemma_plain(ty);
    words_spell_types(ty);
    text::lemma_find_char_from(ty, ':', 0);
}

} // verus!

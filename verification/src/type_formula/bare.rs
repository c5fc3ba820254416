//! Predicates that are written without an argument.
use vstd::prelude::*;

use super::ast::{FormulaModel, ParseErrorModel, TroubleModel, TypeExprModel};
use super::parser::{
    and_rest, arguments_default_to_self, conjunction_at, formula_at, formula_reading,
    named_predicate, or_rest, predicate_at, token, unary_at, unary_predicate,
};
use super::tokens::{token_at, tokens_from, tokens_of, TokenModel};
use crate::text;

verus! {

/// Whether a text is made of small letters and underscores, and starts with a letter.
pub open spec fn is_small_word(name: Seq<char>) -> bool {
    &&& name.len() > 0
    &&& 'a' <= name[0] <= 'z'
    &&& forall|i: int| 0 <= i < name.len() ==> ('a' <= #[trigger] name[i] <= 'z') || name[i] == '_'
}

/// Whether a word means something of its own in formulas.
pub open spec fn is_connective(name: Seq<char>) -> bool {
    name == "and"@ || name == "or"@ || name == "not"@
}

/// The name of a predicate on one type is a word without another meaning.
proof fn lemma_unary_name(name: Seq<char>)
    requires
        unary_predicate(name, TypeExprModel::Self_) is Some,
    ensures
        is_small_word(name),
        !is_connective(name),
        name != "equals"@,
        name != "matches"@,
        named_predicate(name, TypeExprModel::Self_, Seq::empty()) is None,
{
    reveal_strlit("is_sum");
    reveal_strlit("is_product");
    reveal_strlit("is_function");
    reveal_strlit("cloneable");
    reveal_strlit("serializable");
    reveal_strlit("send");
    reveal_strlit("sync");
    reveal_strlit("fallible");
    reveal_strlit("no_unsafe");
    assert(name.len() >= 4 && name.len() != 5 && name.len() != 7);
    assert(name.len() == 6 ==> name[0] == 'i');
    assert(name.len() == 9 ==> name[0] != 'h');
    assert(name.len() == 10 ==> name[0] == 'i' && name[3] == 'p');
    assert(name.len() == 11 ==> name[0] == 'i');
    reveal_strlit("and");
    reveal_strlit("or");
    reveal_strlit("not");
    assert("and"@.len() == 3 && "or"@.len() == 2 && "not"@.len() == 3);
    reveal_strlit("equals");
    reveal_strlit("matches");
    assert("equals"@.len() == 6 && "equals"@[0] == 'e' && "matches"@.len() == 7);
    reveal_strlit("is_subtype");
    reveal_strlit("has_field");
    reveal_strlit("has_method");
    reveal_strlit("has_variant");
    assert("is_subtype"@.len() == 10 && "is_subtype"@[3] == 's');
    assert("has_field"@.len() == 9 && "has_field"@[0] == 'h');
    assert("has_method"@.len() == 10 && "has_method"@[0] == 'h');
    assert("has_variant"@.len() == 11 && "has_variant"@[0] == 'h');
}

/// A word ends where no character of a word follows.
proof fn lemma_word_end(s: Seq<char>, i: int, e: int)
    requires
        0 <= i <= e <= s.len(),
        forall|j: int| i <= j < e ==> text::is_word(#[trigger] s[j]),
        e < s.len() ==> !text::is_word(s[e]),
    ensures
        text::word_end(s, i) == e,
    decreases e - i,
{
    if i < e {
        assert(text::is_word(s[i]));
        lemma_word_end(s, i + 1, e);
    }
}

/// A word is one token, if a parenthesis, a blank or the end of the text follows it.
proof fn lemma_word_token(s: Seq<char>, i: int, name: Seq<char>, done: Seq<TokenModel>)
    requires
        text::occurs_at(s, name, i),
        name.len() > 0,
        text::is_ascii_letter(name[0]),
        forall|j: int|
            0 <= j < name.len() ==> text::is_ascii_letter(#[trigger] name[j]) || name[j] == '_',
        ({
            let e = i + name.len();
            e < s.len() ==> s[e] == '(' || s[e] == ')' || s[e] == ' '
        }),
    ensures
        tokens_from(s, i, done) == tokens_from(
            s,
            i + name.len(),
            done.push(TokenModel::Ident(name)),
        ),
{
    let e = i + name.len();
    let found = s.subrange(i, e);
    assert(found == name);
    assert forall|j: int| i <= j < e implies text::is_word(#[trigger] s[j]) by {
        assert(s[j] == found[j - i]);
    }
    assert(s[i] == found[0]);
    lemma_word_end(s, i, e);
    assert(token_at(s, i) == Ok::<(TokenModel, int), TroubleModel>((TokenModel::Ident(name), e)));
}

/// A parenthesis is one token.
proof fn lemma_paren_token(s: Seq<char>, i: int, done: Seq<TokenModel>)
    requires
        0 <= i < s.len(),
        s[i] == '(' || s[i] == ')',
    ensures
        tokens_from(s, i, done) == tokens_from(
            s,
            i + 1,
            done.push(
                if s[i] == '(' {
                    TokenModel::LParen
                } else {
                    TokenModel::RParen
                },
            ),
        ),
{
}

proof fn lemma_bare_tokens(name: Seq<char>)
    requires
        is_small_word(name),
    ensures
        tokens_of(name) == Ok::<Seq<TokenModel>, TroubleModel>(seq![TokenModel::Ident(name)]),
{
    let none = Seq::<TokenModel>::empty();
    assert(name.subrange(0, name.len() as int) =~= name);
    lemma_word_token(name, 0, name, none);
    assert(none.push(TokenModel::Ident(name)) =~= seq![TokenModel::Ident(name)]);
}

proof fn lemma_call_tokens(name: Seq<char>)
    requires
        is_small_word(name),
    ensures
        tokens_of(name + "(Self)"@) == Ok::<Seq<TokenModel>, TroubleModel>(
            seq![
                TokenModel::Ident(name),
                TokenModel::LParen,
                TokenModel::Ident("Self"@),
                TokenModel::RParen,
            ],
        ),
{
    reveal_strlit("(Self)");
    reveal_strlit("Self");
    let s = name + "(Self)"@;
    let n = name.len() as int;
    let none = Seq::<TokenModel>::empty();
    let one = none.push(TokenModel::Ident(name));
    let two = one.push(TokenModel::LParen);
    let three = two.push(TokenModel::Ident("Self"@));
    assert(s.subrange(0, n) =~= name);
    assert(s[n] == '(');
    lemma_word_token(s, 0, name, none);
    lemma_paren_token(s, n, one);
    assert(s.subrange(n + 1, n + 5) =~= "Self"@);
    assert(s[n + 5] == ')');
    lemma_word_token(s, n + 1, "Self"@, two);
    lemma_paren_token(s, n + 5, three);
    assert(three.push(TokenModel::RParen) =~= seq![
        TokenModel::Ident(name),
        TokenModel::LParen,
        TokenModel::Ident("Self"@),
        TokenModel::RParen,
    ]);
}

proof fn lemma_enclosed_tokens(name: Seq<char>)
    requires
        is_small_word(name),
    ensures
        tokens_of("("@ + name + ")"@) == Ok::<Seq<TokenModel>, TroubleModel>(
            seq![TokenModel::LParen, TokenModel::Ident(name), TokenModel::RParen],
        ),
{
    reveal_strlit("(");
    reveal_strlit(")");
    let s = "("@ + name + ")"@;
    let n = name.len() as int;
    let none = Seq::<TokenModel>::empty();
    let one = none.push(TokenModel::LParen);
    let two = one.push(TokenModel::Ident(name));
    assert(s[0] == '(');
    assert(s[n + 1] == ')');
    assert(s.subrange(1, n + 1) =~= name);
    lemma_paren_token(s, 0, none);
    lemma_word_token(s, 1, name, one);
    lemma_paren_token(s, n + 1, two);
    assert(two.push(TokenModel::RParen) =~= seq![
        TokenModel::LParen,
        TokenModel::Ident(name),
        TokenModel::RParen,
    ]);
}

proof fn lemma_twice_tokens(name: Seq<char>)
    requires
        is_small_word(name),
    ensures
        tokens_of(name + " "@ + name) == Ok::<Seq<TokenModel>, TroubleModel>(
            seq![TokenModel::Ident(name), TokenModel::Ident(name)],
        ),
{
    reveal_strlit(" ");
    let s = name + " "@ + name;
    let n = name.len() as int;
    let none = Seq::<TokenModel>::empty();
    let one = none.push(TokenModel::Ident(name));
    assert(s.subrange(0, n) =~= name);
    assert(s[n] == ' ');
    assert(s.subrange(n + 1, n + 1 + n) =~= name);
    lemma_word_token(s, 0, name, none);
    assert(tokens_from(s, n, one) == tokens_from(s, n + 1, one));
    lemma_word_token(s, n + 1, name, one);
    assert(one.push(TokenModel::Ident(name)) =~= seq![
        TokenModel::Ident(name),
        TokenModel::Ident(name),
    ]);
}

/// A predicate that neither a connective nor a parenthesis precedes or follows is a formula.
proof fn lemma_lone_predicate(ts: Seq<TokenModel>, at: int, f: FormulaModel, n: int)
    requires
        0 <= at < n <= ts.len(),
        ts[at] matches TokenModel::Ident(name) && !is_connective(name),
        predicate_at(ts, at) == Ok::<(FormulaModel, int), TroubleModel>((f, n)),
        token(ts, n) matches Some(TokenModel::Ident(name)) ==> !is_connective(name),
    ensures
        formula_at(ts, at) == Ok::<(FormulaModel, int), TroubleModel>((f, n)),
{
    assert(unary_at(ts, at) == predicate_at(ts, at));
    assert(and_rest(ts, n, f) == Ok::<(FormulaModel, int), TroubleModel>((f, n)));
    assert(conjunction_at(ts, at) == Ok::<(FormulaModel, int), TroubleModel>((f, n)));
    assert(or_rest(ts, n, f) == Ok::<(FormulaModel, int), TroubleModel>((f, n)));
}

/// A predicate on one type in parentheses is a formula.
proof fn lemma_enclosed_predicate(name: Seq<char>, f: FormulaModel)
    requires
        unary_predicate(name, TypeExprModel::Self_) is Some,
        f == FormulaModel::Pred(unary_predicate(name, TypeExprModel::Self_)->Some_0),
    ensures
        formula_at(
            seq![TokenModel::LParen, TokenModel::Ident(name), TokenModel::RParen],
            0,
        ) == Ok::<(FormulaModel, int), TroubleModel>((f, 3)),
{
    let ts = seq![TokenModel::LParen, TokenModel::Ident(name), TokenModel::RParen];
    let done = Ok::<(FormulaModel, int), TroubleModel>((f, 3));
    lemma_unary_name(name);
    assert(ts[1] == TokenModel::Ident(name));
    assert(predicate_at(ts, 1) == Ok::<(FormulaModel, int), TroubleModel>((f, 2)));
    lemma_lone_predicate(ts, 1, f, 2);
    assert(unary_at(ts, 0) == done);
    assert(and_rest(ts, 3, f) == done);
    assert(conjunction_at(ts, 0) == done);
    assert(or_rest(ts, 3, f) == done);
}

/// What the tokens of a text are read as, the text is.
proof fn lemma_read_whole(text: Seq<char>, ts: Seq<TokenModel>, f: FormulaModel)
    requires
        tokens_of(text) == Ok::<Seq<TokenModel>, TroubleModel>(ts),
        formula_at(ts, 0) == Ok::<(FormulaModel, int), TroubleModel>((f, ts.len() as int)),
    ensures
        formula_reading(text) == Some(Ok::<FormulaModel, ParseErrorModel>(f)),
{
}

// ─── Laws ─────────────────────────────────────────────────────────────────────

/// A predicate on one type is read alike without an argument, with `Self` as its argument, and
/// in parentheses.
pub proof fn bare_predicates_are_about_self(name: Seq<char>)
    requires
        unary_predicate(name, TypeExprModel::Self_) is Some,
    ensures
        ({
            let f = FormulaModel::Pred(unary_predicate(name, TypeExprModel::Self_)->Some_0);
            let read = Some(Ok::<FormulaModel, ParseErrorModel>(f));
            &&& formula_reading(name) == read
            &&& formula_reading(name + "(Self)"@) == read
            &&& formula_reading("("@ + name + ")"@) == read
        }),
{
    let f = FormulaModel::Pred(unary_predicate(name, TypeExprModel::Self_)->Some_0);
    let bare = seq![TokenModel::Ident(name)];
    let full = seq![
        TokenModel::Ident(name),
        TokenModel::LParen,
        TokenModel::Ident("Self"@),
        TokenModel::RParen,
    ];
    let enclosed = seq![TokenModel::LParen, TokenModel::Ident(name), TokenModel::RParen];
    lemma_unary_name(name);
    assert(formula_at(bare, 0) == Ok::<(FormulaModel, int), TroubleModel>((f, 1)) && formula_at(
        full,
        0,
    ) == Ok::<(FormulaModel, int), TroubleModel>((f, 4))) by {
        arguments_default_to_self(name);
        lemma_lone_predicate(bare, 0, f, 1);
        lemma_lone_predicate(full, 0, f, 4);
    }
    lemma_enclosed_predicate(name, f);
    lemma_bare_tokens(name);
    lemma_call_tokens(name);
    lemma_enclosed_tokens(name);
    lemma_read_whole(name, bare, f);
    lemma_read_whole(name + "(Self)"@, full, f);
    lemma_read_whole("("@ + name + ")"@, enclosed, f);
}

/// A text in which tokens are left over behind a formula is no formula.
pub proof fn leftover_tokens_are_errors(
    text: Seq<char>,
    ts: Seq<TokenModel>,
    f: FormulaModel,
    n: int,
)
    requires
        tokens_of(text) == Ok::<Seq<TokenModel>, TroubleModel>(ts),
        formula_at(ts, 0) == Ok::<(FormulaModel, int), TroubleModel>((f, n)),
        n < ts.len(),
    ensures
        formula_reading(text) matches Some(Err(_)),
{
}

/// Two predicates on one type in a row are no formula.
pub proof fn predicates_in_a_row_are_errors(name: Seq<char>)
    requires
        unary_predicate(name, TypeExprModel::Self_) is Some,
    ensures
        formula_reading(name + " "@ + name) matches Some(Err(_)),
{
    let f = FormulaModel::Pred(unary_predicate(name, TypeExprModel::Self_)->Some_0);
    lemma_unary_name(name);
    lemma_twice_tokens(name);
    let twice = seq![TokenModel::Ident(name), TokenModel::Ident(name)];
    assert(predicate_at(twice, 0) == Ok::<(FormulaModel, int), TroubleModel>((f, 1)));
    lemma_lone_predicate(twice, 0, f, 1);
    leftover_tokens_are_errors(name + " "@ + name, twice, f, 1);
}

} // verus!

//! Splitting the text of a formula into tokens.
use vstd::prelude::*;

use super::ast::{make_trouble, trouble, Trouble, TroubleModel};
use crate::data::{append_item, result_view, Same};
use crate::text;

verus! {

/// A token of a formula.
#[derive(Debug, PartialEq, Eq)]
pub enum Token {
    Ident(String),
    Integer(usize),
    StringLit(String),
    /// A type such as `Vec<String>`, `&mut T` or `[u8; 32]`, as it was written
    TypeLit(String),
    LParen,
    RParen,
    Comma,
}

/// What a [`Token`] holds.
#[verifier::ext_equal]
pub enum TokenModel {
    Ident(Seq<char>),
    Integer(usize),
    StringLit(Seq<char>),
    TypeLit(Seq<char>),
    LParen,
    RParen,
    Comma,
}

impl DeepView for Token {
    type V = TokenModel;

    open spec fn deep_view(&self) -> TokenModel {
        match self {
            Token::Ident(s) => TokenModel::Ident(s@),
            Token::Integer(n) => TokenModel::Integer(*n),
            Token::StringLit(s) => TokenModel::StringLit(s@),
            Token::TypeLit(s) => TokenModel::TypeLit(s@),
            Token::LParen => TokenModel::LParen,
            Token::RParen => TokenModel::RParen,
            Token::Comma => TokenModel::Comma,
        }
    }
}

impl Same for Token {
    fn same(&self, other: &Self) -> (r: bool) {
        match (self, other) {
            (Token::Ident(a), Token::Ident(b)) => *a == *b,
            (Token::Integer(a), Token::Integer(b)) => *a == *b,
            (Token::StringLit(a), Token::StringLit(b)) => *a == *b,
            (Token::TypeLit(a), Token::TypeLit(b)) => *a == *b,
            (Token::LParen, Token::LParen) => true,
            (Token::RParen, Token::RParen) => true,
            (Token::Comma, Token::Comma) => true,
            _ => false,
        }
    }
}

/// How a token is shown in an error message.
pub open spec fn token_text(t: TokenModel) -> Seq<char> {
    match t {
        TokenModel::Ident(s) => "Ident("@ + text::quoted(s) + ")"@,
        TokenModel::Integer(n) => "Integer("@ + text::decimal(n as nat) + ")"@,
        TokenModel::StringLit(s) => "StringLit("@ + text::quoted(s) + ")"@,
        TokenModel::TypeLit(s) => "TypeLit("@ + text::quoted(s) + ")"@,
        TokenModel::LParen => "LParen"@,
        TokenModel::RParen => "RParen"@,
        TokenModel::Comma => "Comma"@,
    }
}

fn called(name: &str, argument: &str) -> (r: String)
    ensures
        r@ == name@ + argument@ + ")"@,
{
    let mut out = name.to_owned();
    out.append(argument);
    out.append(")");
    out
}

impl Token {
    pub fn to_debug_string(&self) -> (r: String)
        ensures
            r@ == token_text(self.deep_view()),
    {
        match self {
            Token::Ident(s) => called("Ident(", text::debug_quoted(s.as_str()).as_str()),
            Token::Integer(n) => called("Integer(", text::usize_string(*n).as_str()),
            Token::StringLit(s) => called("StringLit(", text::debug_quoted(s.as_str()).as_str()),
            Token::TypeLit(s) => called("TypeLit(", text::debug_quoted(s.as_str()).as_str()),
            Token::LParen => "LParen".to_owned(),
            Token::RParen => "RParen".to_owned(),
            Token::Comma => "Comma".to_owned(),
        }
    }
}

/// Where the keyword `mut` behind an ampersand, with the whitespace after it, ends: it is
/// skipped where no alphanumeric character follows it.
pub open spec fn mut_end(s: Seq<char>, i: int) -> int {
    if text::occurs_at(s, "mut"@, i) && (i + 3 >= s.len() || !text::is_alphanumeric(s[i + 3])) {
        text::spaces_end(s, i + 3)
    } else {
        i
    }
}

/// Where the reference type that starts with the ampersand at `i` ends.
pub open spec fn reference_end(s: Seq<char>, i: int) -> Result<int, TroubleModel> {
    let inner = mut_end(s, text::spaces_end(s, i + 1));
    if inner < s.len() && s[inner] == '[' {
        bracket_end(s, inner)
    } else {
        let word = text::word_end(s, inner);
        if word < s.len() && s[word] == '<' {
            match text::balanced_end(s, word + 1, '<', '>', 1) {
                Some(e) => Ok(e),
                None => Err(trouble("Unbalanced `<>` in reference type"@, word)),
            }
        } else {
            Ok(word)
        }
    }
}

/// Where the slice or array type that starts with the bracket at `i` ends.
pub open spec fn bracket_end(s: Seq<char>, i: int) -> Result<int, TroubleModel> {
    match text::balanced_end(s, i + 1, '[', ']', 1) {
        Some(e) => Ok(e),
        None => Err(trouble("Unbalanced `[]` in type literal"@, i)),
    }
}

/// The token that starts at `i`, where no whitespace stands, and where it ends.
pub open spec fn token_at(s: Seq<char>, i: int) -> Result<(TokenModel, int), TroubleModel> {
    let c = s[i];
    if c == '(' {
        Ok((TokenModel::LParen, i + 1))
    } else if c == ')' {
        Ok((TokenModel::RParen, i + 1))
    } else if c == ',' {
        Ok((TokenModel::Comma, i + 1))
    } else if c == '"' {
        match text::find_char_from(s, '"', i + 1) {
            Some(e) => Ok((TokenModel::StringLit(s.subrange(i + 1, e)), e + 1)),
            None => Err(trouble("Unterminated string literal"@, i)),
        }
    } else if text::is_digit(c) {
        let e = text::digits_end(s, i);
        match text::usize_value(s.subrange(i, e)) {
            Some(n) => Ok((TokenModel::Integer(n), e)),
            None => Err(trouble("Invalid integer: "@ + s.subrange(i, e), i)),
        }
    } else if text::is_word(c) {
        let e = text::word_end(s, i);
        if e < s.len() && s[e] == '<' {
            match text::balanced_end(s, e + 1, '<', '>', 1) {
                Some(end) => Ok((TokenModel::TypeLit(s.subrange(i, end)), end)),
                None => Err(trouble("Unbalanced `<>` in type literal"@, i)),
            }
        } else {
            Ok((TokenModel::Ident(s.subrange(i, e)), e))
        }
    } else if c == '&' {
        match reference_end(s, i) {
            Ok(e) => Ok((TokenModel::TypeLit(s.subrange(i, e)), e)),
            Err(t) => Err(t),
        }
    } else if c == '[' {
        match bracket_end(s, i) {
            Ok(e) => Ok((TokenModel::TypeLit(s.subrange(i, e)), e)),
            Err(t) => Err(t),
        }
    } else {
        Err(trouble("Unexpected character: '"@ + seq![c] + "'"@, i))
    }
}

pub proof fn lemma_token_at(s: Seq<char>, i: int)
    requires
        0 <= i < s.len(),
    ensures
        token_at(s, i) matches Ok((_, e)) ==> i < e <= s.len(),
{
    reveal_strlit("mut");
    text::lemma_runs_advance(s, i + 1);
    text::lemma_find_char_from(s, '"', i + 1);
    let word = text::word_end(s, i);
    text::lemma_balanced_end(s, word + 1, '<', '>', 1);
    text::lemma_balanced_end(s, i + 1, '[', ']', 1);
    let first = text::spaces_end(s, i + 1);
    text::lemma_runs_advance(s, first + 3);
    let inner = mut_end(s, first);
    text::lemma_runs_advance(s, inner);
    text::lemma_balanced_end(s, inner + 1, '[', ']', 1);
    text::lemma_balanced_end(s, text::word_end(s, inner) + 1, '<', '>', 1);
}

/// The tokens before `i`, and those that the rest of the text splits into.
pub open spec fn tokens_from(s: Seq<char>, i: int, done: Seq<TokenModel>) -> Result<
    Seq<TokenModel>,
    TroubleModel,
>
    decreases s.len() - i,
{
    if i < 0 || i >= s.len() {
        Ok(done)
    } else if text::is_whitespace(s[i]) {
        tokens_from(s, i + 1, done)
    } else {
        proof {
            lemma_token_at(s, i);
        }
        match token_at(s, i) {
            Ok((t, e)) => tokens_from(s, e, done.push(t)),
            Err(t) => Err(t),
        }
    }
}

/// The tokens of a formula.
pub open spec fn tokens_of(s: Seq<char>) -> Result<Seq<TokenModel>, TroubleModel> {
    tokens_from(s, 0, Seq::empty())
}

fn read_bracket(s: &[char], i: usize) -> (r: Result<usize, Trouble>)
    requires
        i < s@.len(),
    ensures
        match r {
            Ok(e) => bracket_end(s@, i as int) == Ok::<int, TroubleModel>(e as int) && i < e
                <= s@.len(),
            Err(t) => bracket_end(s@, i as int) == Err::<int, TroubleModel>(t.deep_view()),
        },
{
    assert(s.len() == s@.len());
    match text::skip_balanced(s, i + 1, '[', ']') {
        Some(e) => Ok(e),
        None => Err(make_trouble("Unbalanced `[]` in type literal".to_owned(), i)),
    }
}

fn read_reference(s: &[char], i: usize) -> (r: Result<usize, Trouble>)
    requires
        i < s@.len(),
    ensures
        match r {
            Ok(e) => reference_end(s@, i as int) == Ok::<int, TroubleModel>(e as int) && i < e
                <= s@.len(),
            Err(t) => reference_end(s@, i as int) == Err::<int, TroubleModel>(t.deep_view()),
        },
{
    let length: usize = s.len();
    let first = text::skip_spaces(s, i + 1);
    let mut inner: usize = first;
    proof {
        reveal_strlit("mut");
    }
    if text::literal_at(s, "mut", first) {
        if first + 3 >= length || !s[first + 3].is_alphanumeric() {
            inner = text::skip_spaces(s, first + 3);
        }
    }
    assert(inner == mut_end(s@, first as int));
    if inner < length && s[inner] == '[' {
        read_bracket(s, inner)
    } else {
        let word = text::skip_word(s, inner);
        if word < s.len() && s[word] == '<' {
            match text::skip_balanced(s, word + 1, '<', '>') {
                Some(e) => Ok(e),
                None => Err(make_trouble("Unbalanced `<>` in reference type".to_owned(), word)),
            }
        } else {
            Ok(word)
        }
    }
}

fn read_token(s: &[char], i: usize) -> (r: Result<(Token, usize), Trouble>)
    requires
        i < s@.len(),
    ensures
        match r {
            Ok((t, e)) => token_at(s@, i as int) == Ok::<(TokenModel, int), TroubleModel>(
                (t.deep_view(), e as int),
            ) && i < e <= s@.len(),
            Err(t) => token_at(s@, i as int) == Err::<(TokenModel, int), TroubleModel>(
                t.deep_view(),
            ),
        },
{
    let length: usize = s.len();
    let c = s[i];
    if c == '(' {
        Ok((Token::LParen, i + 1))
    } else if c == ')' {
        Ok((Token::RParen, i + 1))
    } else if c == ',' {
        Ok((Token::Comma, i + 1))
    } else if c == '"' {
        match text::find_char(s, '"', i + 1) {
            Some(e) => Ok((Token::StringLit(text::piece(s, i + 1, e)), e + 1)),
            None => Err(make_trouble("Unterminated string literal".to_owned(), i)),
        }
    } else if text::digit(c) {
        let e = text::skip_digits(s, i);
        proof {
            text::lemma_runs_advance(s@, i + 1);
        }
        match text::parse_usize(vstd::slice::slice_subrange(s, i, e)) {
            Some(n) => Ok((Token::Integer(n), e)),
            None => {
                let mut message = "Invalid integer: ".to_owned();
                message.append(text::piece(s, i, e).as_str());
                Err(make_trouble(message, i))
            },
        }
    } else if text::word_char(c) {
        let e = text::skip_word(s, i);
        proof {
            text::lemma_runs_advance(s@, i + 1);
        }
        if e < length && s[e] == '<' {
            match text::skip_balanced(s, e + 1, '<', '>') {
                Some(end) => Ok((Token::TypeLit(text::piece(s, i, end)), end)),
                None => Err(make_trouble("Unbalanced `<>` in type literal".to_owned(), i)),
            }
        } else {
            Ok((Token::Ident(text::piece(s, i, e)), e))
        }
    } else if c == '&' {
        let e = read_reference(s, i)?;
        Ok((Token::TypeLit(text::piece(s, i, e)), e))
    } else if c == '[' {
        let e = read_bracket(s, i)?;
        Ok((Token::TypeLit(text::piece(s, i, e)), e))
    } else {
        let mut message = "Unexpected character: '".to_owned();
        message.push(c);
        message.append("'");
        assert("Unexpected character: '"@.push(c) =~= "Unexpected character: '"@ + seq![c]);
        Err(make_trouble(message, i))
    }
}

/// Splits a formula into its tokens.
pub fn tokenize(input: &str) -> (r: Result<Vec<Token>, Trouble>)
    ensures
        result_view(r) == tokens_of(input@),
        r matches Ok(tokens) ==> text::lacks(input@, '<') ==> forall|i: int|
            0 <= i < tokens@.len() ==> (#[trigger] tokens.deep_view()[i] matches TokenModel::TypeLit(
                s,
            ) ==> text::lacks(s, '<')),
        r matches Err(e) ==> !(e is Stuck),
{
    let chars = text::chars_of(input);
    let s = chars.as_slice();
    let mut tokens: Vec<Token> = Vec::new();
    let mut i: usize = 0;
    assert(tokens.deep_view() =~= Seq::empty());
    while i < s.len()
        invariant
            i <= s@.len(),
            s@ == input@,
            tokens_from(s@, i as int, tokens.deep_view()) == tokens_of(input@),
            text::lacks(input@, '<') ==> forall|k: int|
                0 <= k < tokens.deep_view().len() ==> (
                #[trigger] tokens.deep_view()[k] matches TokenModel::TypeLit(t) ==> text::lacks(
                    t,
                    '<',
                )),
        decreases s@.len() - i,
    {
        if text::whitespace(s[i]) {
            i += 1;
        } else {
            let (t, e) = read_token(s, i)?;
            proof {
                assert(t.deep_view() matches TokenModel::TypeLit(part) ==> part == s@.subrange(
                    i as int,
                    e as int,
                ));
                assert(text::lacks(s@, '<') ==> text::lacks(s@.subrange(i as int, e as int), '<'));
            }
            append_item(&mut tokens, t);
            i = e;
        }
    }
    Ok(tokens)
}

} // verus!

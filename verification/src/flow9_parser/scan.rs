//! Scanning: blanks, words and bodies, and the errors of reading.
//!
//! Positions count characters; the positions that error messages show count bytes.
use vstd::prelude::*;

use crate::text;

verus! {

/// Why nothing was read.
#[derive(Debug)]
pub enum Failure {
    /// What was expected, and where the parser stood
    Error(String, usize),
    /// A number of bytes that is cut off for a comparison or a message would end inside a
    /// character: of such a text there is no reading
    Stuck,
}

/// What a [`Failure`] holds.
#[verifier::ext_equal]
pub enum FailureModel {
    Error(Seq<char>, int),
    Stuck,
}

impl DeepView for Failure {
    type V = FailureModel;

    open spec fn deep_view(&self) -> FailureModel {
        match self {
            Failure::Error(message, at) => FailureModel::Error(message@, *at as int),
            Failure::Stuck => FailureModel::Stuck,
        }
    }
}

/// What was read and where it ended, or why nothing was.
pub type Read<T> = Result<(T, int), FailureModel>;

/// What was read and where it ended, seen by contents.
pub open spec fn read_view<T: DeepView>(r: Result<(T, usize), Failure>) -> Read<T::V> {
    match r {
        Ok((v, n)) => Ok((v.deep_view(), n as int)),
        Err(e) => Err(e.deep_view()),
    }
}

/// Where a reading ended, seen by contents.
pub open spec fn end_view(r: Result<usize, Failure>) -> Result<int, FailureModel> {
    match r {
        Ok(n) => Ok(n as int),
        Err(e) => Err(e.deep_view()),
    }
}

/// Whether every character takes one byte.
#[verifier::opaque]
pub open spec fn is_narrow(s: Seq<char>) -> bool {
    text::is_ascii(s)
}

/// A failure keeps its position within the text, and a text of narrow characters always has
/// a reading.
pub open spec fn failure_within(e: Failure, from: int, s: Seq<char>) -> bool {
    match e {
        Failure::Error(_, at) => from <= at <= s.len(),
        Failure::Stuck => !is_narrow(s),
    }
}

/// A reading that started at `from` ended behind it, or failed at or behind it.
pub open spec fn moved<T>(r: Result<(T, usize), Failure>, from: int, s: Seq<char>) -> bool {
    match r {
        Ok((_, n)) => from < n <= s.len(),
        Err(e) => failure_within(e, from, s),
    }
}

/// The value turned into another one, where one was read.
pub open spec fn mapped<T, U>(read: Read<T>, f: spec_fn(T) -> U) -> Read<U> {
    match read {
        Ok((v, n)) => Ok((f(v), n)),
        Err(e) => Err(e),
    }
}

// ─── Bytes ────────────────────────────────────────────────────────────────────

/// How many bytes a character takes in UTF-8.
pub open spec fn width(c: char) -> nat {
    let n = c as u32;
    if n < 0x80 {
        1
    } else if n < 0x800 {
        2
    } else if n < 0x10000 {
        3
    } else {
        4
    }
}

/// How many bytes the first `at` characters take.
pub open spec fn byte_offset(s: Seq<char>, at: int) -> nat
    decreases at,
{
    if at <= 0 || at > s.len() {
        0
    } else {
        byte_offset(s, at - 1) + width(s[at - 1])
    }
}

/// Where the `n` bytes from position `at` on end, or the text if it is shorter; nowhere if
/// they end inside a character.
pub open spec fn cut(s: Seq<char>, at: int, n: nat) -> Option<int>
    decreases s.len() - at,
{
    if at < 0 || at >= s.len() || n == 0 {
        Some(at)
    } else if width(s[at]) > n {
        None
    } else {
        cut(s, at + 1, (n - width(s[at])) as nat)
    }
}

/// In a text of ASCII characters bytes can be cut off anywhere.
pub proof fn lemma_cut_ascii(s: Seq<char>, at: int, n: nat)
    requires
        0 <= at,
        at + n <= s.len(),
        text::is_ascii(s),
    ensures
        cut(s, at, n) == Some(at + n),
    decreases n,
{
    if n > 0 {
        lemma_cut_ascii(s, at + 1, (n - 1) as nat);
    }
}

pub fn char_width(c: char) -> (r: usize)
    ensures
        r == width(c),
        1 <= r <= 4,
{
    let n: u32 = c as u32;
    if n < 0x80 {
        1
    } else if n < 0x800 {
        2
    } else if n < 0x10000 {
        3
    } else {
        4
    }
}

pub fn count_bytes(s: &[char], at: usize) -> (r: u128)
    requires
        at <= s@.len(),
    ensures
        r == byte_offset(s@, at as int),
{
    let mut i: usize = 0;
    let mut total: u128 = 0;
    while i < at
        invariant
            i <= at <= s@.len(),
            total == byte_offset(s@, i as int),
            total <= 4 * i,
        decreases at - i,
    {
        total += char_width(s[i]) as u128;
        i += 1;
    }
    total
}

pub fn cut_bytes(s: &[char], at: usize, n: usize) -> (r: Option<usize>)
    requires
        at <= s@.len(),
    ensures
        match r {
            Some(e) => cut(s@, at as int, n as nat) == Some(e as int) && at <= e <= s@.len(),
            None => cut(s@, at as int, n as nat) is None && !is_narrow(s@),
        },
{
    let mut i: usize = at;
    let mut left: usize = n;
    while i < s.len() && left > 0
        invariant
            at <= i <= s@.len(),
            cut(s@, at as int, n as nat) == cut(s@, i as int, left as nat),
        decreases s@.len() - i,
    {
        let w = char_width(s[i]);
        if w > left {
            proof {
                reveal(is_narrow);
                assert((s@[i as int] as u32) >= 128);
            }
            return None;
        }
        left -= w;
        i += 1;
    }
    Some(i)
}

// ─── Characters and words ─────────────────────────────────────────────────────

pub open spec fn char_at(s: Seq<char>, at: int) -> Option<char> {
    if 0 <= at < s.len() {
        Some(s[at])
    } else {
        None
    }
}

pub fn peek(s: &[char], at: usize) -> (r: Option<char>)
    ensures
        r == char_at(s@, at as int),
        r is Some ==> at < usize::MAX,
{
    if at < s.len() {
        Some(s[at])
    } else {
        None
    }
}

/// Whether the text from `at` on starts with the literal, as far as its bytes can be cut off.
pub open spec fn looking_at(s: Seq<char>, at: int, literal: Seq<char>) -> Result<
    bool,
    FailureModel,
> {
    match cut(s, at, literal.len()) {
        Some(_) => Ok(text::occurs_at(s, literal, at)),
        None => Err(FailureModel::Stuck),
    }
}

pub fn peek_literal(s: &[char], at: usize, literal: &str) -> (r: Result<bool, Failure>)
    requires
        at <= s@.len(),
    ensures
        match r {
            Ok(b) => looking_at(s@, at as int, literal@) == Ok::<bool, FailureModel>(b) && (b
                ==> at + literal@.len() <= s@.len()),
            Err(e) => looking_at(s@, at as int, literal@) == Err::<bool, FailureModel>(
                e.deep_view(),
            ) && failure_within(e, at as int, s@),
        },
{
    let n: usize = literal.unicode_len();
    match cut_bytes(s, at, n) {
        Some(_) => Ok(text::literal_at(s, literal, at)),
        None => Err(Failure::Stuck),
    }
}

pub open spec fn is_blank(c: char) -> bool {
    c == ' ' || c == '\t' || c == '\n' || c == '\r'
}

/// Where the blanks that start at `at` end.
pub open spec fn blanks_end(s: Seq<char>, at: int) -> int
    decreases s.len() - at,
{
    if 0 <= at < s.len() && is_blank(s[at]) {
        blanks_end(s, at + 1)
    } else {
        at
    }
}

pub open spec fn is_id_start(c: char) -> bool {
    text::is_ascii_letter(c) || c == '_'
}

pub open spec fn is_id_continue(c: char) -> bool {
    text::is_ascii_alphanumeric(c) || c == '_'
}

/// Where the rest of an identifier that goes on at `at` ends.
pub open spec fn id_end(s: Seq<char>, at: int) -> int
    decreases s.len() - at,
{
    if 0 <= at < s.len() && is_id_continue(s[at]) {
        id_end(s, at + 1)
    } else {
        at
    }
}

/// Where the question marks that start at `at` end.
pub open spec fn marks_end(s: Seq<char>, at: int) -> int
    decreases s.len() - at,
{
    if 0 <= at < s.len() && s[at] == '?' {
        marks_end(s, at + 1)
    } else {
        at
    }
}

pub proof fn lemma_runs(s: Seq<char>, at: int)
    ensures
        at <= blanks_end(s, at),
        at <= id_end(s, at),
        at <= marks_end(s, at),
        0 <= at <= s.len() ==> blanks_end(s, at) <= s.len(),
        0 <= at <= s.len() ==> id_end(s, at) <= s.len(),
        0 <= at <= s.len() ==> marks_end(s, at) <= s.len(),
    decreases s.len() - at,
{
    if 0 <= at < s.len() {
        lemma_runs(s, at + 1);
    }
}

pub fn skip_ws(s: &[char], at: usize) -> (r: usize)
    requires
        at <= s@.len(),
    ensures
        r == blanks_end(s@, at as int),
        at <= r <= s@.len(),
{
    let mut i: usize = at;
    while i < s.len() && (s[i] == ' ' || s[i] == '\t' || s[i] == '\n' || s[i] == '\r')
        invariant
            at <= i <= s@.len(),
            blanks_end(s@, at as int) == blanks_end(s@, i as int),
        decreases s@.len() - i,
    {
        i += 1;
    }
    i
}

pub fn skip_id(s: &[char], at: usize) -> (r: usize)
    requires
        at <= s@.len(),
    ensures
        r == id_end(s@, at as int),
        at <= r <= s@.len(),
{
    let mut i: usize = at;
    while i < s.len() && (text::ascii_alphanumeric(s[i]) || s[i] == '_')
        invariant
            at <= i <= s@.len(),
            id_end(s@, at as int) == id_end(s@, i as int),
        decreases s@.len() - i,
    {
        i += 1;
    }
    i
}

pub fn skip_marks(s: &[char], at: usize) -> (r: usize)
    requires
        at <= s@.len(),
    ensures
        r == marks_end(s@, at as int),
        at <= r <= s@.len(),
{
    let mut i: usize = at;
    while i < s.len() && s[i] == '?'
        invariant
            at <= i <= s@.len(),
            marks_end(s@, at as int) == marks_end(s@, i as int),
        decreases s@.len() - i,
    {
        i += 1;
    }
    i
}

/// A character between single quotes, with the escapes of the debug format.
pub uninterp spec fn quoted_char(c: char) -> Seq<char>;

/// The debug format of `char`: a function of the character alone.
#[verifier::external_body]
fn debug_char(c: char) -> (r: String)
    ensures
        r@ == quoted_char(c),
{
    format!("{:?}", c)
}

/// How the next character is shown in an error message.
pub open spec fn found_char(c: Option<char>) -> Seq<char> {
    match c {
        Some(c) => "Some("@ + quoted_char(c) + ")"@,
        None => "None"@,
    }
}

/// The position behind the character, which must stand at `at` or behind blanks there.
pub open spec fn expected_char(s: Seq<char>, at: int, c: char) -> Result<int, FailureModel> {
    let p = blanks_end(s, at);
    if char_at(s, p) == Some(c) {
        Ok(p + 1)
    } else {
        Err(
            FailureModel::Error(
                "Expected '"@ + seq![c] + "' at position "@ + text::decimal(byte_offset(s, p))
                    + ", found "@ + found_char(char_at(s, p)),
                p,
            ),
        )
    }
}

/// What was read, with the character that must follow it read too.
pub open spec fn followed_by<T>(read: Read<T>, s: Seq<char>, c: char) -> Read<T> {
    match read {
        Ok((v, n)) => match expected_char(s, n, c) {
            Ok(m) => Ok((v, m)),
            Err(e) => Err(e),
        },
        Err(e) => Err(e),
    }
}

pub fn expect_char(s: &[char], at: usize, c: char) -> (r: Result<usize, Failure>)
    requires
        at <= s@.len(),
    ensures
        end_view(r) == expected_char(s@, at as int, c),
        match r {
            Ok(n) => at < n <= s@.len(),
            Err(e) => failure_within(e, at as int, s@),
        },
{
    let p = skip_ws(s, at);
    let next = peek(s, p);
    let found = match next {
        Some(x) => {
            if x == c {
                return Ok(p + 1);
            }
            let mut out = "Some(".to_owned();
            out.append(debug_char(x).as_str());
            out.append(")");
            out
        },
        None => "None".to_owned(),
    };
    let mut message = "Expected '".to_owned();
    message.push(c);
    assert("Expected '"@.push(c) =~= "Expected '"@ + seq![c]);
    message.append("' at position ");
    message.append(text::decimal_string(count_bytes(s, p)).as_str());
    message.append(", found ");
    message.append(found.as_str());
    Err(Failure::Error(message, p))
}

/// Whether a keyword stands at `at`, with no letter, digit or underscore behind it.
pub open spec fn keyword_at(s: Seq<char>, at: int, keyword: Seq<char>) -> bool {
    text::occurs_at(s, keyword, at) && match char_at(s, at + keyword.len()) {
        Some(c) => !is_id_continue(c),
        None => true,
    }
}

pub fn at_keyword(s: &[char], at: usize, keyword: &str) -> (b: bool)
    ensures
        b == keyword_at(s@, at as int, keyword@),
        b ==> at + keyword@.len() <= s@.len(),
{
    if !text::literal_at(s, keyword, at) {
        return false;
    }
    let n: usize = keyword.unicode_len();
    let length: usize = s.len();
    match peek(s, at + n) {
        Some(c) => !(text::ascii_alphanumeric(c) || c == '_'),
        None => true,
    }
}

/// The error of not finding an identifier at `p`.
pub open spec fn no_identifier(s: Seq<char>, p: int) -> FailureModel {
    match cut(s, p, 20) {
        Some(e) => FailureModel::Error(
            "Expected identifier at position "@ + text::decimal(byte_offset(s, p)) + ", found '"@
                + s.subrange(p, e) + "'"@,
            p,
        ),
        None => FailureModel::Stuck,
    }
}

/// An identifier that starts at `at` or behind blanks there.
pub open spec fn id_at(s: Seq<char>, at: int) -> Read<Seq<char>> {
    let p = blanks_end(s, at);
    if p < s.len() && is_id_start(s[p]) {
        Ok((s.subrange(p, id_end(s, p + 1)), id_end(s, p + 1)))
    } else {
        Err(no_identifier(s, p))
    }
}

pub proof fn lemma_id_at(s: Seq<char>, at: int)
    requires
        0 <= at <= s.len(),
    ensures
        id_at(s, at) matches Ok((_, n)) ==> at < n <= s.len(),
{
    lemma_runs(s, at);
    let p = blanks_end(s, at);
    if p < s.len() {
        lemma_runs(s, p + 1);
    }
}

pub fn parse_id(s: &[char], at: usize) -> (r: Result<(String, usize), Failure>)
    requires
        at <= s@.len(),
    ensures
        read_view(r) == id_at(s@, at as int),
        moved(r, at as int, s@),
        r matches Err(Failure::Error(_, p)) ==> p == blanks_end(s@, at as int),
{
    let p = skip_ws(s, at);
    if p < s.len() && (text::ascii_letter(s[p]) || s[p] == '_') {
        let e = skip_id(s, p + 1);
        return Ok((text::piece(s, p, e), e));
    }
    match cut_bytes(s, p, 20) {
        Some(e) => {
            let mut message = "Expected identifier at position ".to_owned();
            message.append(text::decimal_string(count_bytes(s, p)).as_str());
            message.append(", found '");
            message.append(text::piece(s, p, e).as_str());
            message.append("'");
            Err(Failure::Error(message, p))
        },
        None => Err(Failure::Stuck),
    }
}

/// More segments of a name, each behind a separator, put behind what is there.
pub open spec fn path_rest(s: Seq<char>, at: int, path: Seq<char>) -> Read<Seq<char>>
    decreases s.len() - at,
{
    if char_at(s, at) == Some('/') {
        proof {
            lemma_id_at(s, at + 1);
        }
        match id_at(s, at + 1) {
            Ok((segment, n)) => path_rest(s, n, path.push('/') + segment),
            Err(e) => Err(e),
        }
    } else {
        Ok((path, at))
    }
}

/// A path such as `ui/button`.
pub open spec fn path_at(s: Seq<char>, at: int) -> Read<Seq<char>> {
    match id_at(s, at) {
        Ok((first, n)) => path_rest(s, n, first),
        Err(e) => Err(e),
    }
}

pub fn parse_path(s: &[char], at: usize) -> (r: Result<(String, usize), Failure>)
    requires
        at <= s@.len(),
    ensures
        read_view(r) == path_at(s@, at as int),
        moved(r, at as int, s@),
{
    let (first, n) = parse_id(s, at)?;
    let mut path = first;
    let mut i: usize = n;
    loop
        invariant
            at < i <= s@.len(),
            path_at(s@, at as int) == path_rest(s@, i as int, path@),
        decreases s@.len() - i,
    {
        if peek(s, i) != Some('/') {
            return Ok((path, i));
        }
        let (segment, m) = parse_id(s, i + 1)?;
        path.push('/');
        path.append(segment.as_str());
        i = m;
    }
}

/// More parts of a dotted name, put behind what is there.
pub open spec fn dotted_rest(s: Seq<char>, at: int, name: Seq<char>) -> Read<Seq<char>>
    decreases s.len() - at,
{
    let p = blanks_end(s, at);
    proof {
        lemma_runs(s, at);
    }
    if char_at(s, p) == Some('.') {
        proof {
            lemma_id_at(s, p + 1);
        }
        match id_at(s, p + 1) {
            Ok((segment, n)) => dotted_rest(s, n, name.push('.') + segment),
            Err(e) => Err(e),
        }
    } else {
        Ok((name, p))
    }
}

/// A dotted name such as `Native.println`.
pub open spec fn dotted_name_at(s: Seq<char>, at: int) -> Read<Seq<char>> {
    match id_at(s, at) {
        Ok((first, n)) => dotted_rest(s, n, first),
        Err(e) => Err(e),
    }
}

pub fn parse_dotted_name(s: &[char], at: usize) -> (r: Result<(String, usize), Failure>)
    requires
        at <= s@.len(),
    ensures
        read_view(r) == dotted_name_at(s@, at as int),
        moved(r, at as int, s@),
{
    let (first, n) = parse_id(s, at)?;
    let mut name = first;
    let mut i: usize = n;
    loop
        invariant
            at < i <= s@.len(),
            dotted_name_at(s@, at as int) == dotted_rest(s@, i as int, name@),
        decreases s@.len() - i,
    {
        let p = skip_ws(s, i);
        if peek(s, p) != Some('.') {
            return Ok((name, p));
        }
        let (segment, m) = parse_id(s, p + 1)?;
        name.push('.');
        name.append(segment.as_str());
        i = m;
    }
}

// ─── Bodies ───────────────────────────────────────────────────────────────────

/// Whether a string is open behind the character `c`. Outside a string a quote opens one;
/// inside, a quote closes it unless it is escaped.
pub open spec fn string_open(open: bool, c: char, escaped: bool) -> bool {
    if open {
        !(c == '"' && !escaped)
    } else {
        c == '"'
    }
}

/// Whether the character behind `c` is escaped: in a string, behind a backslash that is not
/// escaped itself.
pub open spec fn string_escapes(open: bool, c: char, escaped: bool) -> bool {
    open && !escaped && c == '\\'
}

/// The position of the brace that closes the `depth` open ones, outside strings.
pub open spec fn closing_brace(s: Seq<char>, i: int, depth: nat, quoted: bool, escaped: bool) -> Option<
    int,
>
    decreases s.len() - i,
{
    if i < 0 || i >= s.len() {
        None
    } else {
        let c = s[i];
        let open = string_open(quoted, c, escaped);
        let next = string_escapes(quoted, c, escaped);
        if quoted || c == '"' {
            closing_brace(s, i + 1, depth, open, next)
        } else if c == '{' {
            closing_brace(s, i + 1, depth + 1, open, next)
        } else if c == '}' {
            if depth <= 1 {
                Some(i)
            } else {
                closing_brace(s, i + 1, (depth - 1) as nat, open, next)
            }
        } else {
            closing_brace(s, i + 1, depth, open, next)
        }
    }
}

/// What stands between the opening brace before `at` and the brace that closes it.
pub open spec fn brace_body_at(s: Seq<char>, at: int) -> Read<Seq<char>> {
    match closing_brace(s, at, 1, false, false) {
        Some(e) => Ok((s.subrange(at, e), e + 1)),
        None => Err(
            FailureModel::Error(
                "Unmatched '{' starting at position "@ + text::decimal(byte_offset(s, at - 1)),
                s.len() as int,
            ),
        ),
    }
}

pub fn extract_brace_body(s: &[char], at: usize) -> (r: Result<(String, usize), Failure>)
    requires
        0 < at <= s@.len(),
    ensures
        read_view(r) == brace_body_at(s@, at as int),
        moved(r, at as int, s@),
{
    let mut i: usize = at;
    let mut depth: u128 = 1;
    let mut quoted: bool = false;
    let mut escaped: bool = false;
    while i < s.len()
        invariant
            0 < at <= i <= s@.len(),
            1 <= depth <= i - at + 1,
            closing_brace(s@, at as int, 1, false, false) == closing_brace(
                s@,
                i as int,
                depth as nat,
                quoted,
                escaped,
            ),
        decreases s@.len() - i,
    {
        let c = s[i];
        let escapes: bool = quoted && !escaped && c == '\\';
        if quoted {
            if c == '"' && !escaped {
                quoted = false;
            }
        } else if c == '"' {
            quoted = true;
        } else if c == '{' {
            depth += 1;
        } else if c == '}' {
            if depth == 1 {
                return Ok((text::piece(s, at, i), i + 1));
            }
            depth -= 1;
        }
        escaped = escapes;
        i += 1;
    }
    let mut message = "Unmatched '{' starting at position ".to_owned();
    message.append(text::decimal_string(count_bytes(s, at - 1)).as_str());
    Err(Failure::Error(message, i))
}

/// Where an expression that goes on at `i` ends, and where reading goes on behind it. It
/// ends at a semicolon outside brackets, which belongs to it; at a brace that closes an
/// enclosing block, which does not; or with the text.
pub open spec fn expression_end(
    s: Seq<char>,
    i: int,
    paren: int,
    brace: nat,
    bracket: int,
    quoted: bool,
    escaped: bool,
) -> (int, int)
    decreases s.len() - i,
{
    if i < 0 || i >= s.len() {
        (i, i)
    } else {
        let c = s[i];
        let open = string_open(quoted, c, escaped);
        let next = string_escapes(quoted, c, escaped);
        if quoted || c == '"' {
            expression_end(s, i + 1, paren, brace, bracket, open, next)
        } else if c == '(' {
            expression_end(s, i + 1, paren + 1, brace, bracket, open, next)
        } else if c == ')' {
            expression_end(s, i + 1, paren - 1, brace, bracket, open, next)
        } else if c == '{' {
            expression_end(s, i + 1, paren, brace + 1, bracket, open, next)
        } else if c == '}' {
            if brace == 0 {
                (i, i)
            } else {
                expression_end(s, i + 1, paren, (brace - 1) as nat, bracket, open, next)
            }
        } else if c == '[' {
            expression_end(s, i + 1, paren, brace, bracket + 1, open, next)
        } else if c == ']' {
            expression_end(s, i + 1, paren, brace, bracket - 1, open, next)
        } else if c == ';' && paren == 0 && brace == 0 && bracket == 0 {
            (i, i + 1)
        } else {
            expression_end(s, i + 1, paren, brace, bracket, open, next)
        }
    }
}

/// The trimmed expression that starts at `at`, and where reading goes on behind it.
pub open spec fn expression_at(s: Seq<char>, at: int) -> (Seq<char>, int) {
    let (e, next) = expression_end(s, at, 0, 0, 0, false, false);
    (text::trim(s.subrange(at, e)), next)
}

pub fn extract_exp_body(s: &[char], at: usize) -> (r: (String, usize))
    requires
        at <= s@.len(),
    ensures
        (r.0@, r.1 as int) == expression_at(s@, at as int),
        at <= r.1 <= s@.len(),
{
    let mut i: usize = at;
    let mut paren: i128 = 0;
    let mut brace: u128 = 0;
    let mut bracket: i128 = 0;
    let mut quoted: bool = false;
    let mut escaped: bool = false;
    while i < s.len()
        invariant
            at <= i <= s@.len(),
            -i <= paren <= i,
            brace <= i,
            -i <= bracket <= i,
            expression_end(s@, at as int, 0, 0, 0, false, false) == expression_end(
                s@,
                i as int,
                paren as int,
                brace as nat,
                bracket as int,
                quoted,
                escaped,
            ),
        decreases s@.len() - i,
    {
        let c = s[i];
        let escapes: bool = quoted && !escaped && c == '\\';
        if quoted {
            if c == '"' && !escaped {
                quoted = false;
            }
        } else if c == '"' {
            quoted = true;
        } else if c == '(' {
            paren += 1;
        } else if c == ')' {
            paren -= 1;
        } else if c == '{' {
            brace += 1;
        } else if c == '}' {
            if brace == 0 {
                let body = text::trim_chars(vstd::slice::slice_subrange(s, at, i));
                return (text::string_of(body), i);
            }
            brace -= 1;
        } else if c == '[' {
            bracket += 1;
        } else if c == ']' {
            bracket -= 1;
        } else if c == ';' && paren == 0 && brace == 0 && bracket == 0 {
            let body = text::trim_chars(vstd::slice::slice_subrange(s, at, i));
            return (text::string_of(body), i + 1);
        }
        escaped = escapes;
        i += 1;
    }
    let body = text::trim_chars(vstd::slice::slice_subrange(s, at, i));
    (text::string_of(body), i)
}

} // verus!

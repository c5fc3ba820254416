//! Text as sequences of characters: the string operations that the rest of the library
//! is built from, each with the sequence function that it computes.
use vstd::prelude::*;
use vstd::slice::slice_subrange;

verus! {

// ─── Characters ───────────────────────────────────────────────────────────────

/// The Unicode `White_Space` property.
pub open spec fn is_whitespace(c: char) -> bool {
    let n = c as u32;
    ||| 0x9 <= n <= 0xd
    ||| n == 0x20
    ||| n == 0x85
    ||| n == 0xa0
    ||| n == 0x1680
    ||| 0x2000 <= n <= 0x200a
    ||| n == 0x2028
    ||| n == 0x2029
    ||| n == 0x202f
    ||| n == 0x205f
    ||| n == 0x3000
}

pub open spec fn is_digit(c: char) -> bool {
    '0' <= c <= '9'
}

pub open spec fn is_ascii_letter(c: char) -> bool {
    ('a' <= c <= 'z') || ('A' <= c <= 'Z')
}

pub open spec fn is_ascii_alphanumeric(c: char) -> bool {
    is_ascii_letter(c) || is_digit(c)
}

pub fn whitespace(c: char) -> (b: bool)
    ensures
        b == is_whitespace(c),
{
    let n: u32 = c as u32;
    (0x9 <= n && n <= 0xd) || n == 0x20 || n == 0x85 || n == 0xa0 || n == 0x1680 || (0x2000 <= n
        && n <= 0x200a) || n == 0x2028 || n == 0x2029 || n == 0x202f || n == 0x205f || n == 0x3000
}

pub fn digit(c: char) -> (b: bool)
    ensures
        b == is_digit(c),
{
    '0' <= c && c <= '9'
}

pub fn ascii_letter(c: char) -> (b: bool)
    ensures
        b == is_ascii_letter(c),
{
    ('a' <= c && c <= 'z') || ('A' <= c && c <= 'Z')
}

pub fn ascii_alphanumeric(c: char) -> (b: bool)
    ensures
        b == is_ascii_alphanumeric(c),
{
    ascii_letter(c) || digit(c)
}

/// Whether Unicode counts a character outside ASCII as a letter or a number.
pub uninterp spec fn unicode_alphanumeric(c: char) -> bool;

/// Whether a character is a letter or a number.
pub open spec fn is_alphanumeric(c: char) -> bool {
    if (c as u32) < 128 {
        is_ascii_alphanumeric(c)
    } else {
        unicode_alphanumeric(c)
    }
}

/// `char::is_alphanumeric`: a function of the character alone. Among the ASCII characters
/// the letters and the digits are alphanumeric, and no other.
pub assume_specification[ char::is_alphanumeric ](c: char) -> (b: bool)
    ensures
        (c as u32) < 128 ==> b == is_ascii_alphanumeric(c),
        (c as u32) >= 128 ==> b == unicode_alphanumeric(c),
;

/// Whether Unicode counts a character outside ASCII as uppercase.
pub uninterp spec fn unicode_uppercase(c: char) -> bool;

/// Whether a character is uppercase.
pub open spec fn is_uppercase(c: char) -> bool {
    if (c as u32) < 128 {
        'A' <= c <= 'Z'
    } else {
        unicode_uppercase(c)
    }
}

/// `char::is_uppercase`: a function of the character alone. Among the ASCII characters
/// exactly `A` to `Z` are uppercase.
pub assume_specification[ char::is_uppercase ](c: char) -> (b: bool)
    ensures
        (c as u32) < 128 ==> b == ('A' <= c <= 'Z'),
        (c as u32) >= 128 ==> b == unicode_uppercase(c),
;

/// The lowercase form of a text that is not all ASCII, by the Unicode case mapping.
pub uninterp spec fn unicode_lowercase(s: Seq<char>) -> Seq<char>;

pub open spec fn is_ascii(s: Seq<char>) -> bool {
    forall|i: int| 0 <= i < s.len() ==> (#[trigger] s[i] as u32) < 128
}

/// The lowercase form of an ASCII character.
pub open spec fn ascii_lowercase(c: char) -> char {
    if 'A' <= c <= 'Z' {
        ((c as u8) + 32) as u8 as char
    } else {
        c
    }
}

/// The lowercase form of a text.
pub open spec fn lowercase(s: Seq<char>) -> Seq<char> {
    if is_ascii(s) {
        s.map_values(|c: char| ascii_lowercase(c))
    } else {
        unicode_lowercase(s)
    }
}

/// The lowercase form of a text of ASCII characters is its own lowercase form.
pub proof fn lemma_lowercase_twice(s: Seq<char>)
    requires
        is_ascii(s),
    ensures
        lowercase(lowercase(s)) == lowercase(s),
{
    let low = lowercase(s);
    assert forall|i: int| 0 <= i < low.len() implies (#[trigger] low[i] as u32) < 128 && ascii_lowercase(
        low[i],
    ) == low[i] by {
        assert(low[i] == ascii_lowercase(s[i]));
        assert((s[i] as u32) < 128);
    }
    assert(is_ascii(low));
    assert(lowercase(low) =~= low);
}

/// `str::to_lowercase`: a function of the text alone. In a text of ASCII characters `A` to `Z`
/// become `a` to `z`, and no other character changes.
pub assume_specification[ str::to_lowercase ](s: &str) -> (r: String)
    ensures
        is_ascii(s@) ==> r@ == s@.map_values(|c: char| ascii_lowercase(c)),
        !is_ascii(s@) ==> r@ == unicode_lowercase(s@),
;

/// `String::push`: one character is put behind the text.
pub assume_specification[ String::push ](s: &mut String, c: char)
    ensures
        final(s)@ == old(s)@.push(c),
;

/// A text between double quotes, with the escapes of the debug format.
pub uninterp spec fn quoted(s: Seq<char>) -> Seq<char>;

/// The debug format of `str`: a function of the text alone.
#[verifier::external_body]
pub(crate) fn debug_quoted(s: &str) -> (r: String)
    ensures
        r@ == quoted(s@),
{
    format!("{:?}", s)
}

// ─── Between strings and characters ───────────────────────────────────────────

pub fn chars_of(s: &str) -> (r: Vec<char>)
    ensures
        r@ == s@,
{
    let mut out: Vec<char> = Vec::new();
    for c in it: s.chars()
        invariant
            out@ == it.seq().take(it.index()),
            it.seq() == s@,
    {
        out.push(c);
    }
    out
}

pub fn string_of(s: &[char]) -> (r: String)
    ensures
        r@ == s@,
{
    let mut out: String = String::new();
    let mut i: usize = 0;
    while i < s.len()
        invariant
            i <= s.len(),
            out@ == s@.take(i as int),
        decreases s.len() - i,
    {
        out.push(s[i]);
        assert(s@.take(i + 1) =~= s@.take(i as int).push(s@[i as int]));
        i += 1;
    }
    assert(s@.take(s@.len() as int) =~= s@);
    out
}

/// The characters from `from` up to and not including `to`, as a string.
pub fn piece(s: &[char], from: usize, to: usize) -> (r: String)
    requires
        from <= to <= s@.len(),
    ensures
        r@ == s@.subrange(from as int, to as int),
{
    string_of(slice_subrange(s, from, to))
}

pub fn same(a: &str, b: &str) -> (r: bool)
    ensures
        r == (a@ == b@),
{
    let x = a.to_owned();
    let y = b.to_owned();
    x == y
}

pub fn chars_equal(a: &[char], b: &[char]) -> (r: bool)
    ensures
        r == (a@ == b@),
{
    if a.len() != b.len() {
        return false;
    }
    let mut i: usize = 0;
    while i < a.len()
        invariant
            i <= a@.len() == b@.len(),
            forall|j: int| 0 <= j < i ==> a@[j] == b@[j],
        decreases a@.len() - i,
    {
        if a[i] != b[i] {
            assert(a@[i as int] != b@[i as int]);
            return false;
        }
        i += 1;
    }
    assert(a@ =~= b@);
    true
}

pub fn chars_are(a: &[char], b: &str) -> (r: bool)
    ensures
        r == (a@ == b@),
{
    let other = chars_of(b);
    chars_equal(a, other.as_slice())
}

// ─── Trimming ─────────────────────────────────────────────────────────────────

pub open spec fn trim_start(s: Seq<char>) -> Seq<char>
    decreases s.len(),
{
    if s.len() > 0 && is_whitespace(s[0]) {
        trim_start(s.drop_first())
    } else {
        s
    }
}

pub open spec fn trim_end(s: Seq<char>) -> Seq<char>
    decreases s.len(),
{
    if s.len() > 0 && is_whitespace(s.last()) {
        trim_end(s.drop_last())
    } else {
        s
    }
}

/// The text without the whitespace at its two ends.
pub open spec fn trim(s: Seq<char>) -> Seq<char> {
    trim_end(trim_start(s))
}

pub proof fn lemma_trim_start_len(s: Seq<char>)
    ensures
        trim_start(s).len() <= s.len(),
    decreases s.len(),
{
    if s.len() > 0 && is_whitespace(s[0]) {
        lemma_trim_start_len(s.drop_first());
    }
}

pub proof fn lemma_trim_end_len(s: Seq<char>)
    ensures
        trim_end(s).len() <= s.len(),
    decreases s.len(),
{
    if s.len() > 0 && is_whitespace(s.last()) {
        lemma_trim_end_len(s.drop_last());
    }
}

pub proof fn lemma_trim_len(s: Seq<char>)
    ensures
        trim(s).len() <= s.len(),
{
    lemma_trim_start_len(s);
    lemma_trim_end_len(trim_start(s));
}

/// A text that no blank surrounds is its own trimmed form.
pub proof fn lemma_trim_same(s: Seq<char>)
    requires
        s.len() > 0,
        !is_whitespace(s[0]),
        !is_whitespace(s.last()),
    ensures
        trim(s) == s,
{
}

/// A text with one blank behind it, or before it, trimmed.
pub proof fn lemma_trim_blank(s: Seq<char>)
    requires
        s.len() > 0,
        !is_whitespace(s[0]),
        !is_whitespace(s.last()),
    ensures
        trim(s.push(' ')) == s,
        trim(seq![' '] + s) == s,
        trim(s) == s,
{
    let after = s.push(' ');
    assert(after.drop_last() =~= s);
    reveal_with_fuel(trim_end, 2);
    reveal_with_fuel(trim_start, 2);
    assert(trim_start(after) == after);
    assert(trim_end(after) == trim_end(s));
    let before = seq![' '] + s;
    assert(before.drop_first() =~= s);
    assert(trim_start(before) == trim_start(s));
}

pub fn trim_chars_start(s: &[char]) -> (r: &[char])
    ensures
        r@ == trim_start(s@),
{
    let mut from: usize = 0;
    assert(s@.subrange(0, s@.len() as int) =~= s@);
    while from < s.len() && whitespace(s[from])
        invariant
            from <= s@.len(),
            trim_start(s@) == trim_start(s@.subrange(from as int, s@.len() as int)),
        decreases s@.len() - from,
    {
        proof {
            let rest = s@.subrange(from as int, s@.len() as int);
            assert(rest.drop_first() =~= s@.subrange(from + 1, s@.len() as int));
        }
        from += 1;
    }
    slice_subrange(s, from, s.len())
}

pub fn trim_chars_end(s: &[char]) -> (r: &[char])
    ensures
        r@ == trim_end(s@),
{
    let mut to: usize = s.len();
    assert(s@.subrange(0, s@.len() as int) =~= s@);
    while to > 0 && whitespace(s[to - 1])
        invariant
            to <= s@.len(),
            trim_end(s@) == trim_end(s@.subrange(0, to as int)),
        decreases to,
    {
        proof {
            let front = s@.subrange(0, to as int);
            assert(front.drop_last() =~= s@.subrange(0, to - 1));
        }
        to -= 1;
    }
    slice_subrange(s, 0, to)
}

pub fn trim_chars(s: &[char]) -> (r: &[char])
    ensures
        r@ == trim(s@),
{
    trim_chars_end(trim_chars_start(s))
}

pub fn trimmed(s: &str) -> (r: String)
    ensures
        r@ == trim(s@),
{
    let chars = chars_of(s);
    string_of(trim_chars(chars.as_slice()))
}

// ─── Searching ────────────────────────────────────────────────────────────────

/// Whether `p` stands in `s` at position `i`.
pub open spec fn occurs_at(s: Seq<char>, p: Seq<char>, i: int) -> bool {
    0 <= i && i + p.len() <= s.len() && s.subrange(i, i + p.len()) == p
}

pub open spec fn starts_with(s: Seq<char>, p: Seq<char>) -> bool {
    occurs_at(s, p, 0)
}

pub open spec fn ends_with(s: Seq<char>, p: Seq<char>) -> bool {
    occurs_at(s, p, s.len() - p.len())
}

/// Whether `p` stands somewhere in `s`.
pub open spec fn contains(s: Seq<char>, p: Seq<char>) -> bool {
    exists|i: int| #[trigger] occurs_at(s, p, i)
}

/// The first position at or behind `from` where `p` stands in `s`.
pub open spec fn find_from(s: Seq<char>, p: Seq<char>, from: int) -> Option<int>
    decreases s.len() + 1 - from,
{
    if from < 0 || from > s.len() {
        None
    } else if occurs_at(s, p, from) {
        Some(from)
    } else {
        find_from(s, p, from + 1)
    }
}

pub open spec fn find(s: Seq<char>, p: Seq<char>) -> Option<int> {
    find_from(s, p, 0)
}

/// The first position at or behind `from` where the character `c` stands in `s`.
pub open spec fn find_char_from(s: Seq<char>, c: char, from: int) -> Option<int>
    decreases s.len() - from,
{
    if from < 0 || from >= s.len() {
        None
    } else if s[from] == c {
        Some(from)
    } else {
        find_char_from(s, c, from + 1)
    }
}

/// The last position before `to` where the character `c` stands in `s`.
pub open spec fn rfind_char_before(s: Seq<char>, c: char, to: int) -> Option<int>
    decreases to,
{
    if to <= 0 || to > s.len() {
        None
    } else if s[to - 1] == c {
        Some(to - 1)
    } else {
        rfind_char_before(s, c, to - 1)
    }
}

pub proof fn lemma_find_from(s: Seq<char>, p: Seq<char>, from: int)
    ensures
        match find_from(s, p, from) {
            Some(i) => from <= i && occurs_at(s, p, i) && (forall|j: int|
                from <= j < i ==> !#[trigger] occurs_at(s, p, j)),
            None => from < 0 || (forall|j: int| from <= j ==> !#[trigger] occurs_at(s, p, j)),
        },
    decreases s.len() + 1 - from,
{
    if !(from < 0 || from > s.len()) && !occurs_at(s, p, from) {
        lemma_find_from(s, p, from + 1);
    }
}

pub proof fn lemma_find_char_from(s: Seq<char>, c: char, from: int)
    ensures
        match find_char_from(s, c, from) {
            Some(i) => from <= i < s.len() && s[i] == c && (forall|j: int|
                from <= j < i ==> s[j] != c),
            None => from < 0 || (forall|j: int| from <= j < s.len() ==> s[j] != c),
        },
    decreases s.len() - from,
{
    if !(from < 0 || from >= s.len()) && s[from] != c {
        lemma_find_char_from(s, c, from + 1);
    }
}

pub proof fn lemma_rfind_char_before(s: Seq<char>, c: char, to: int)
    ensures
        match rfind_char_before(s, c, to) {
            Some(i) => 0 <= i < to && i < s.len() && s[i] == c && (forall|j: int|
                i < j < to ==> s[j] != c),
            None => to > s.len() || (forall|j: int| 0 <= j < to ==> s[j] != c),
        },
    decreases to,
{
    if !(to <= 0 || to > s.len()) && s[to - 1] != c {
        lemma_rfind_char_before(s, c, to - 1);
    }
}

pub fn chars_occur_at(s: &[char], p: &[char], i: usize) -> (b: bool)
    ensures
        b == occurs_at(s@, p@, i as int),
{
    if i > s.len() || p.len() > s.len() - i {
        return false;
    }
    chars_equal(slice_subrange(s, i, i + p.len()), p)
}

/// Whether the literal `p` stands in `s` at position `i`.
pub fn literal_at(s: &[char], p: &str, i: usize) -> (b: bool)
    ensures
        b == occurs_at(s@, p@, i as int),
{
    let pattern = chars_of(p);
    chars_occur_at(s, pattern.as_slice(), i)
}

pub fn chars_start_with(s: &[char], p: &str) -> (b: bool)
    ensures
        b == starts_with(s@, p@),
{
    literal_at(s, p, 0)
}

pub fn chars_end_with(s: &[char], p: &str) -> (b: bool)
    ensures
        b == ends_with(s@, p@),
{
    let pattern = chars_of(p);
    if pattern.len() > s.len() {
        return false;
    }
    chars_occur_at(s, pattern.as_slice(), s.len() - pattern.len())
}

pub fn find_chars_from(s: &[char], p: &[char], from: usize) -> (r: Option<usize>)
    requires
        from <= s@.len(),
    ensures
        match r {
            Some(i) => find_from(s@, p@, from as int) == Some(i as int) && from <= i <= s@.len()
                && occurs_at(s@, p@, i as int),
            None => find_from(s@, p@, from as int) is None,
        },
{
    let mut i: usize = from;
    loop
        invariant
            from <= i <= s@.len(),
            find_from(s@, p@, from as int) == find_from(s@, p@, i as int),
        decreases s@.len() - i,
    {
        if chars_occur_at(s, p, i) {
            return Some(i);
        }
        if i == s.len() {
            assert(find_from(s@, p@, i + 1) is None);
            return None;
        }
        i += 1;
    }
}

pub fn chars_contain(s: &[char], p: &str) -> (b: bool)
    ensures
        b == contains(s@, p@),
{
    let pattern = chars_of(p);
    let r = find_chars_from(s, pattern.as_slice(), 0);
    proof {
        lemma_find_from(s@, p@, 0);
    }
    match r {
        Some(i) => {
            assert(occurs_at(s@, p@, i as int));
            true
        },
        None => {
            assert forall|i: int| !#[trigger] occurs_at(s@, p@, i) by {
                if 0 <= i {
                }
            }
            false
        },
    }
}

pub fn text_contains(s: &str, p: &str) -> (b: bool)
    ensures
        b == contains(s@, p@),
{
    let chars = chars_of(s);
    chars_contain(chars.as_slice(), p)
}

pub fn text_starts_with(s: &str, p: &str) -> (b: bool)
    ensures
        b == starts_with(s@, p@),
{
    let chars = chars_of(s);
    chars_start_with(chars.as_slice(), p)
}

pub fn find_char(s: &[char], c: char, from: usize) -> (r: Option<usize>)
    ensures
        match r {
            Some(i) => find_char_from(s@, c, from as int) == Some(i as int) && from <= i < s@.len()
                && i < usize::MAX && s@[i as int] == c,
            None => find_char_from(s@, c, from as int) is None,
        },
{
    let mut i: usize = from;
    while i < s.len()
        invariant
            from <= i,
            find_char_from(s@, c, from as int) == find_char_from(s@, c, i as int),
        decreases s@.len() - i,
    {
        if s[i] == c {
            return Some(i);
        }
        i += 1;
    }
    None
}

pub fn rfind_char(s: &[char], c: char) -> (r: Option<usize>)
    ensures
        match r {
            Some(i) => rfind_char_before(s@, c, s@.len() as int) == Some(i as int) && i < s@.len()
                && s@[i as int] == c,
            None => rfind_char_before(s@, c, s@.len() as int) is None,
        },
{
    let mut to: usize = s.len();
    while to > 0
        invariant
            to <= s@.len(),
            rfind_char_before(s@, c, s@.len() as int) == rfind_char_before(s@, c, to as int),
        decreases to,
    {
        if s[to - 1] == c {
            return Some(to - 1);
        }
        to -= 1;
    }
    None
}

// ─── Runs of characters ───────────────────────────────────────────────────────

/// Where the whitespace that starts at `i` ends.
pub open spec fn spaces_end(s: Seq<char>, i: int) -> int
    decreases s.len() - i,
{
    if 0 <= i < s.len() && is_whitespace(s[i]) {
        spaces_end(s, i + 1)
    } else {
        i
    }
}

/// Where the digits that start at `i` end.
pub open spec fn digits_end(s: Seq<char>, i: int) -> int
    decreases s.len() - i,
{
    if 0 <= i < s.len() && is_digit(s[i]) {
        digits_end(s, i + 1)
    } else {
        i
    }
}

/// Whether the character may stand in a word: alphanumeric, or an underscore.
pub open spec fn is_word(c: char) -> bool {
    is_alphanumeric(c) || c == '_'
}

/// Where the word that starts at `i` ends.
pub open spec fn word_end(s: Seq<char>, i: int) -> int
    decreases s.len() - i,
{
    if 0 <= i < s.len() && is_word(s[i]) {
        word_end(s, i + 1)
    } else {
        i
    }
}

pub proof fn lemma_runs_advance(s: Seq<char>, i: int)
    ensures
        i <= spaces_end(s, i),
        i <= digits_end(s, i),
        i <= word_end(s, i),
        0 <= i <= s.len() ==> spaces_end(s, i) <= s.len(),
        0 <= i <= s.len() ==> digits_end(s, i) <= s.len(),
        0 <= i <= s.len() ==> word_end(s, i) <= s.len(),
    decreases s.len() - i,
{
    if 0 <= i < s.len() {
        lemma_runs_advance(s, i + 1);
    }
}

pub fn skip_spaces(s: &[char], from: usize) -> (r: usize)
    requires
        from <= s@.len(),
    ensures
        r == spaces_end(s@, from as int),
        from <= r <= s@.len(),
{
    let mut i: usize = from;
    while i < s.len() && whitespace(s[i])
        invariant
            from <= i <= s@.len(),
            spaces_end(s@, from as int) == spaces_end(s@, i as int),
        decreases s@.len() - i,
    {
        i += 1;
    }
    i
}

pub fn skip_digits(s: &[char], from: usize) -> (r: usize)
    requires
        from <= s@.len(),
    ensures
        r == digits_end(s@, from as int),
        from <= r <= s@.len(),
{
    let mut i: usize = from;
    while i < s.len() && digit(s[i])
        invariant
            from <= i <= s@.len(),
            digits_end(s@, from as int) == digits_end(s@, i as int),
        decreases s@.len() - i,
    {
        i += 1;
    }
    i
}

pub fn word_char(c: char) -> (b: bool)
    ensures
        b == is_word(c),
{
    c.is_alphanumeric() || c == '_'
}

pub fn skip_word(s: &[char], from: usize) -> (r: usize)
    requires
        from <= s@.len(),
    ensures
        r == word_end(s@, from as int),
        from <= r <= s@.len(),
{
    let mut i: usize = from;
    while i < s.len() && word_char(s[i])
        invariant
            from <= i <= s@.len(),
            word_end(s@, from as int) == word_end(s@, i as int),
        decreases s@.len() - i,
    {
        i += 1;
    }
    i
}

/// Whether the `>` of an arrow `->` stands at a position.
pub open spec fn is_arrow_end(s: Seq<char>, i: int) -> bool {
    0 < i < s.len() && s[i] == '>' && s[i - 1] == '-'
}

/// Behind which character the bracket is closed, if it ever is, when `depth` brackets are
/// open before position `i`. The `>` of an arrow closes nothing.
pub open spec fn balanced_end(s: Seq<char>, i: int, open: char, close: char, depth: nat) -> Option<
    int,
>
    decreases s.len() - i,
{
    if i < 0 || i >= s.len() {
        None
    } else if s[i] == open {
        balanced_end(s, i + 1, open, close, depth + 1)
    } else if s[i] == close && !is_arrow_end(s, i) {
        if depth <= 1 {
            Some(i + 1)
        } else {
            balanced_end(s, i + 1, open, close, (depth - 1) as nat)
        }
    } else {
        balanced_end(s, i + 1, open, close, depth)
    }
}

pub proof fn lemma_balanced_end(s: Seq<char>, i: int, open: char, close: char, depth: nat)
    ensures
        balanced_end(s, i, open, close, depth) matches Some(e) ==> i < e <= s.len(),
    decreases s.len() - i,
{
    if !(i < 0 || i >= s.len()) {
        lemma_balanced_end(s, i + 1, open, close, depth + 1);
        lemma_balanced_end(s, i + 1, open, close, depth);
        if depth > 0 {
            lemma_balanced_end(s, i + 1, open, close, (depth - 1) as nat);
        }
    }
}

/// Skips to behind the bracket that closes the one before `from`.
pub fn skip_balanced(s: &[char], from: usize, open: char, close: char) -> (r: Option<usize>)
    requires
        from <= s@.len(),
    ensures
        match r {
            Some(e) => balanced_end(s@, from as int, open, close, 1) == Some(e as int) && from < e
                <= s@.len(),
            None => balanced_end(s@, from as int, open, close, 1) is None,
        },
{
    let mut i: usize = from;
    let mut depth: u128 = 1;
    while i < s.len()
        invariant
            from <= i <= s@.len(),
            1 <= depth <= i - from + 1,
            balanced_end(s@, from as int, open, close, 1) == balanced_end(
                s@,
                i as int,
                open,
                close,
                depth as nat,
            ),
        decreases s@.len() - i,
    {
        if s[i] == open {
            depth += 1;
        } else if s[i] == close && !(close == '>' && i > 0 && s[i - 1] == '-') {
            if depth <= 1 {
                return Some(i + 1);
            }
            depth -= 1;
        }
        i += 1;
    }
    None
}

// ─── Prefixes and suffixes ────────────────────────────────────────────────────

/// The text without a suffix, however often it ends with it.
pub open spec fn without_suffix(s: Seq<char>, suffix: Seq<char>) -> Seq<char>
    decreases s.len(),
{
    if suffix.len() > 0 && ends_with(s, suffix) {
        without_suffix(s.take(s.len() - suffix.len()), suffix)
    } else {
        s
    }
}

pub fn strip_suffixes<'a>(s: &'a [char], suffix: &str) -> (r: &'a [char])
    requires
        suffix@.len() > 0,
    ensures
        r@ == without_suffix(s@, suffix@),
{
    let n: usize = suffix.unicode_len();
    let mut to: usize = s.len();
    assert(s@.take(to as int) =~= s@);
    while chars_end_with(slice_subrange(s, 0, to), suffix)
        invariant
            to <= s@.len(),
            n == suffix@.len(),
            n > 0,
            without_suffix(s@, suffix@) == without_suffix(s@.take(to as int), suffix@),
        decreases to,
    {
        assert(s@.subrange(0, to as int) =~= s@.take(to as int));
        assert(s@.take(to as int).take(to - n) =~= s@.take(to - n));
        to -= n;
    }
    assert(s@.subrange(0, to as int) =~= s@.take(to as int));
    slice_subrange(s, 0, to)
}

/// The text without a prefix, however often it starts with it.
pub open spec fn without_prefix(s: Seq<char>, prefix: Seq<char>) -> Seq<char>
    decreases s.len(),
{
    if prefix.len() > 0 && starts_with(s, prefix) {
        without_prefix(s.skip(prefix.len() as int), prefix)
    } else {
        s
    }
}

pub fn strip_prefixes<'a>(s: &'a [char], prefix: &str) -> (r: &'a [char])
    requires
        prefix@.len() > 0,
    ensures
        r@ == without_prefix(s@, prefix@),
{
    let n: usize = prefix.unicode_len();
    let length: usize = s.len();
    let mut from: usize = 0;
    assert(s@.skip(0) =~= s@);
    while literal_at(s, prefix, from)
        invariant
            from <= length == s@.len(),
            n == prefix@.len(),
            n > 0,
            without_prefix(s@, prefix@) == without_prefix(s@.skip(from as int), prefix@),
        decreases length - from,
    {
        proof {
            let rest = s@.skip(from as int);
            assert(rest.subrange(0, n as int) =~= s@.subrange(from as int, from + n));
            assert(rest.skip(n as int) =~= s@.skip(from + n));
        }
        from += n;
    }
    proof {
        let rest = s@.skip(from as int);
        assert(rest =~= s@.subrange(from as int, s@.len() as int));
        if starts_with(rest, prefix@) {
            assert(s@.subrange(from as int, from + n) =~= rest.subrange(0, n as int));
        }
    }
    slice_subrange(s, from, length)
}

/// The text without a character at its end, however often it ends with it.
pub open spec fn without_last(s: Seq<char>, c: char) -> Seq<char>
    decreases s.len(),
{
    if s.len() > 0 && s.last() == c {
        without_last(s.drop_last(), c)
    } else {
        s
    }
}

pub fn strip_last(s: &[char], c: char) -> (r: &[char])
    ensures
        r@ == without_last(s@, c),
{
    let mut to: usize = s.len();
    assert(s@.subrange(0, to as int) =~= s@);
    while to > 0 && s[to - 1] == c
        invariant
            to <= s@.len(),
            without_last(s@, c) == without_last(s@.subrange(0, to as int), c),
        decreases to,
    {
        assert(s@.subrange(0, to as int).drop_last() =~= s@.subrange(0, to - 1));
        to -= 1;
    }
    slice_subrange(s, 0, to)
}

// ─── Splitting and joining ────────────────────────────────────────────────────

/// The pieces between the occurrences of `c`: one more than there are occurrences.
pub open spec fn split(s: Seq<char>, c: char) -> Seq<Seq<char>>
    decreases s.len(),
{
    if s.len() == 0 {
        seq![Seq::<char>::empty()]
    } else {
        let front = split(s.drop_last(), c);
        if s.last() == c {
            front.push(Seq::<char>::empty())
        } else {
            front.drop_last().push(front.last().push(s.last()))
        }
    }
}

pub proof fn lemma_split_nonempty(s: Seq<char>, c: char)
    ensures
        split(s, c).len() > 0,
    decreases s.len(),
{
    if s.len() > 0 {
        lemma_split_nonempty(s.drop_last(), c);
    }
}

pub fn split_chars(s: &[char], c: char) -> (r: Vec<String>)
    ensures
        r.deep_view() == split(s@, c),
{
    let mut parts: Vec<String> = Vec::new();
    let mut current: String = String::new();
    let mut i: usize = 0;
    assert(s@.take(0).len() == 0);
    while i < s.len()
        invariant
            i <= s@.len(),
            parts.deep_view().push(current@) == split(s@.take(i as int), c),
        decreases s@.len() - i,
    {
        proof {
            assert(s@.take(i + 1).drop_last() =~= s@.take(i as int));
        }
        let ghost before = parts.deep_view();
        if s[i] == c {
            parts.push(current);
            assert(parts.deep_view() =~= before.push(current@));
            current = String::new();
        } else {
            let ghost front = before.push(current@);
            current.push(s[i]);
            assert(front.drop_last() =~= before);
        }
        i += 1;
    }
    assert(s@.take(s@.len() as int) =~= s@);
    let ghost before = parts.deep_view();
    parts.push(current);
    assert(parts.deep_view() =~= before.push(current@));
    parts
}

pub fn split_text(s: &str, c: char) -> (r: Vec<String>)
    ensures
        r.deep_view() == split(s@, c),
{
    let chars = chars_of(s);
    split_chars(chars.as_slice(), c)
}

/// Splitting on a delimiter outside all brackets: the pieces so far, how deep each kind of
/// bracket is open, and whether the last character was a dash. The `>` of an arrow `->` is no
/// bracket.
#[verifier::ext_equal]
pub struct Nesting {
    pub pieces: Seq<Seq<char>>,
    pub angle: int,
    pub paren: int,
    pub bracket: int,
    pub dash: bool,
}

/// The splitting behind one more character.
pub open spec fn nesting_step(n: Nesting, c: char, delim: char) -> Nesting {
    let grown = Nesting {
        pieces: n.pieces.drop_last().push(n.pieces.last().push(c)),
        dash: c == '-',
        ..n
    };
    if c == '<' {
        Nesting { angle: n.angle + 1, ..grown }
    } else if c == '>' {
        if n.dash {
            grown
        } else {
            Nesting { angle: n.angle - 1, ..grown }
        }
    } else if c == '(' {
        Nesting { paren: n.paren + 1, ..grown }
    } else if c == ')' {
        Nesting { paren: n.paren - 1, ..grown }
    } else if c == '[' {
        Nesting { bracket: n.bracket + 1, ..grown }
    } else if c == ']' {
        Nesting { bracket: n.bracket - 1, ..grown }
    } else if c == delim && n.angle == 0 && n.paren == 0 && n.bracket == 0 {
        Nesting { pieces: n.pieces.push(Seq::<char>::empty()), dash: c == '-', ..n }
    } else {
        grown
    }
}

/// The splitting of a text behind what was split before it.
pub open spec fn nesting_from(n: Nesting, s: Seq<char>, delim: char) -> Nesting
    decreases s.len(),
{
    if s.len() == 0 {
        n
    } else {
        nesting_step(nesting_from(n, s.drop_last(), delim), s.last(), delim)
    }
}

pub open spec fn nesting(s: Seq<char>, delim: char) -> Nesting {
    nesting_from(
        Nesting {
            pieces: seq![Seq::<char>::empty()],
            angle: 0,
            paren: 0,
            bracket: 0,
            dash: false,
        },
        s,
        delim,
    )
}

/// The pieces between the delimiters that stand outside `<>`, `()` and `[]`.
pub open spec fn nested_split(s: Seq<char>, delim: char) -> Seq<Seq<char>> {
    nesting(s, delim).pieces
}

pub proof fn lemma_nested_split(s: Seq<char>, delim: char)
    ensures
        nested_split(s, delim).len() > 0,
        forall|i: int|
            0 <= i < nested_split(s, delim).len() ==> (#[trigger] nested_split(s, delim)[i]).len()
                <= s.len(),
    decreases s.len(),
{
    if s.len() > 0 {
        lemma_nested_split(s.drop_last(), delim);
        let front = nested_split(s.drop_last(), delim);
        let now = nested_split(s, delim);
        assert forall|i: int| 0 <= i < now.len() implies (#[trigger] now[i]).len() <= s.len() by {
            if i < front.len() - 1 {
                assert(now[i] == front[i]);
            } else {
                assert(front[front.len() - 1].len() <= s.len() - 1);
            }
        }
    }
}

/// The pieces of a text of ASCII characters are such texts.
pub proof fn lemma_nested_ascii(s: Seq<char>, delim: char)
    requires
        is_ascii(s),
    ensures
        forall|i: int|
            0 <= i < nested_split(s, delim).len() ==> is_ascii(#[trigger] nested_split(s, delim)[i]),
    decreases s.len(),
{
    lemma_nested_split(s, delim);
    if s.len() > 0 {
        lemma_nested_ascii(s.drop_last(), delim);
        lemma_nested_split(s.drop_last(), delim);
        let front = nested_split(s.drop_last(), delim);
        let now = nested_split(s, delim);
        let last = front.last();
        assert(is_ascii(front[front.len() - 1]));
        assert(is_ascii(last.push(s.last()))) by {
            assert forall|j: int| 0 <= j < last.len() + 1 implies (#[trigger] last.push(
                s.last(),
            )[j] as u32) < 128 by {
                if j < last.len() {
                    assert(last.push(s.last())[j] == last[j]);
                } else {
                    assert(s.last() == s[s.len() - 1]);
                }
            }
        }
        assert forall|i: int| 0 <= i < now.len() implies is_ascii(#[trigger] now[i]) by {
            if i < front.len() - 1 {
                assert(now[i] == front[i]);
            }
        }
    }
}

/// Whether a character stands nowhere in a text.
pub open spec fn lacks(s: Seq<char>, c: char) -> bool {
    forall|i: int| 0 <= i < s.len() ==> #[trigger] s[i] != c
}

/// A trimmed text lacks what the text lacks.
pub proof fn lemma_trim_lacks(s: Seq<char>, c: char)
    requires
        lacks(s, c),
    ensures
        lacks(trim(s), c),
{
    lemma_trim_start_lacks(s, c);
    lemma_trim_end_lacks(trim_start(s), c);
}

proof fn lemma_trim_start_lacks(s: Seq<char>, c: char)
    requires
        lacks(s, c),
    ensures
        lacks(trim_start(s), c),
    decreases s.len(),
{
    if s.len() > 0 && is_whitespace(s[0]) {
        assert(lacks(s.drop_first(), c));
        lemma_trim_start_lacks(s.drop_first(), c);
    }
}

proof fn lemma_trim_end_lacks(s: Seq<char>, c: char)
    requires
        lacks(s, c),
    ensures
        lacks(trim_end(s), c),
    decreases s.len(),
{
    if s.len() > 0 && is_whitespace(s.last()) {
        assert(lacks(s.drop_last(), c));
        lemma_trim_end_lacks(s.drop_last(), c);
    }
}

/// The pieces of a text lack what the text lacks.
pub proof fn lemma_nested_lacks(s: Seq<char>, delim: char, c: char)
    requires
        lacks(s, c),
    ensures
        forall|i: int|
            0 <= i < nested_split(s, delim).len() ==> lacks(#[trigger] nested_split(s, delim)[i], c),
    decreases s.len(),
{
    lemma_nested_split(s, delim);
    if s.len() > 0 {
        assert(lacks(s.drop_last(), c));
        lemma_nested_lacks(s.drop_last(), delim, c);
        lemma_nested_split(s.drop_last(), delim);
        let front = nested_split(s.drop_last(), delim);
        let now = nested_split(s, delim);
        let last = front.last();
        assert(lacks(front[front.len() - 1], c));
        assert(lacks(last.push(s.last()), c)) by {
            assert forall|j: int| 0 <= j < last.len() + 1 implies #[trigger] last.push(
                s.last(),
            )[j] != c by {
                if j < last.len() {
                    assert(last.push(s.last())[j] == last[j]);
                } else {
                    assert(s.last() == s[s.len() - 1]);
                }
            }
        }
        assert forall|i: int| 0 <= i < now.len() implies lacks(#[trigger] now[i], c) by {
            if i < front.len() - 1 {
                assert(now[i] == front[i]);
            }
        }
    }
}

/// A trimmed text of ASCII characters is such a text.
pub proof fn lemma_trim_ascii(s: Seq<char>)
    requires
        is_ascii(s),
    ensures
        is_ascii(trim(s)),
{
    lemma_trim_start_ascii(s);
    lemma_trim_end_ascii(trim_start(s));
}

proof fn lemma_trim_start_ascii(s: Seq<char>)
    requires
        is_ascii(s),
    ensures
        is_ascii(trim_start(s)),
    decreases s.len(),
{
    if s.len() > 0 && is_whitespace(s[0]) {
        assert(is_ascii(s.drop_first()));
        lemma_trim_start_ascii(s.drop_first());
    }
}

proof fn lemma_trim_end_ascii(s: Seq<char>)
    requires
        is_ascii(s),
    ensures
        is_ascii(trim_end(s)),
    decreases s.len(),
{
    if s.len() > 0 && is_whitespace(s.last()) {
        assert(is_ascii(s.drop_last()));
        lemma_trim_end_ascii(s.drop_last());
    }
}

/// A text of ASCII characters without prefixes is such a text.
pub proof fn lemma_prefix_ascii(s: Seq<char>, prefix: Seq<char>)
    requires
        is_ascii(s),
    ensures
        is_ascii(without_prefix(s, prefix)),
    decreases s.len(),
{
    if prefix.len() > 0 && starts_with(s, prefix) {
        assert(is_ascii(s.skip(prefix.len() as int)));
        lemma_prefix_ascii(s.skip(prefix.len() as int), prefix);
    }
}

pub fn split_nested(s: &[char], delim: char) -> (r: Vec<String>)
    ensures
        r.deep_view() == nested_split(s@, delim),
        r@.len() > 0,
{
    let mut parts: Vec<String> = Vec::new();
    let mut current: String = String::new();
    let mut angle: i128 = 0;
    let mut paren: i128 = 0;
    let mut bracket: i128 = 0;
    let mut dash: bool = false;
    let mut i: usize = 0;
    assert(s@.take(0).len() == 0);
    while i < s.len()
        invariant
            i <= s@.len(),
            -i <= angle <= i,
            -i <= paren <= i,
            -i <= bracket <= i,
            nesting(s@.take(i as int), delim) == (Nesting {
                pieces: parts.deep_view().push(current@),
                angle: angle as int,
                paren: paren as int,
                bracket: bracket as int,
                dash,
            }),
        decreases s@.len() - i,
    {
        proof {
            assert(s@.take(i + 1).drop_last() =~= s@.take(i as int));
            assert(s@.take(i + 1).last() == s@[i as int]);
        }
        let ghost before = parts.deep_view();
        let ghost front = before.push(current@);
        proof {
            assert(front.drop_last() =~= before);
        }
        let c = s[i];
        if c == delim && angle == 0 && paren == 0 && bracket == 0 && c != '<' && c != '>' && c
            != '(' && c != ')' && c != '[' && c != ']' {
            crate::data::append_item(&mut parts, current);
            current = String::new();
        } else {
            if c == '<' {
                angle += 1;
            } else if c == '>' {
                if !dash {
                    angle -= 1;
                }
            } else if c == '(' {
                paren += 1;
            } else if c == ')' {
                paren -= 1;
            } else if c == '[' {
                bracket += 1;
            } else if c == ']' {
                bracket -= 1;
            }
            current.push(c);
        }
        dash = c == '-';
        i += 1;
    }
    assert(s@.take(s@.len() as int) =~= s@);
    crate::data::append_item(&mut parts, current);
    assert(parts.deep_view().len() == parts@.len());
    parts
}

/// A line without the carriage return that stood before its line feed.
pub open spec fn without_cr(line: Seq<char>) -> Seq<char> {
    if line.len() > 0 && line.last() == '\r' {
        line.drop_last()
    } else {
        line
    }
}

/// The lines of a text. Each line ends at a line feed, or at a carriage return and a line
/// feed, which are no part of it; what follows the last line feed is a line if there is any.
pub open spec fn lines(s: Seq<char>) -> Seq<Seq<char>> {
    let parts = split(s, '\n');
    let whole = parts.drop_last().map_values(|line: Seq<char>| without_cr(line));
    if parts.last().len() == 0 {
        whole
    } else {
        whole.push(parts.last())
    }
}

fn strip_cr(line: &str) -> (r: String)
    ensures
        r@ == without_cr(line@),
{
    let chars = chars_of(line);
    if chars.len() > 0 && chars[chars.len() - 1] == '\r' {
        piece(chars.as_slice(), 0, chars.len() - 1)
    } else {
        line.to_owned()
    }
}

pub fn lines_of(s: &str) -> (r: Vec<String>)
    ensures
        r.deep_view() == lines(s@),
{
    let parts = split_text(s, '\n');
    proof {
        lemma_split_nonempty(s@, '\n');
        assert(parts.deep_view().len() == parts@.len());
    }
    let mut out: Vec<String> = Vec::new();
    let last: usize = parts.len() - 1;
    let mut i: usize = 0;
    let ghost whole = parts.deep_view().drop_last().map_values(
        |line: Seq<char>| without_cr(line),
    );
    while i < last
        invariant
            i <= last == parts@.len() - 1,
            whole == parts.deep_view().drop_last().map_values(|line: Seq<char>| without_cr(line)),
            out.deep_view() == whole.take(i as int),
        decreases last - i,
    {
        let ghost before = out.deep_view();
        out.push(strip_cr(parts[i].as_str()));
        assert(out.deep_view() =~= before.push(without_cr(parts@[i as int]@)));
        assert(whole.take(i + 1) =~= whole.take(i as int).push(whole[i as int]));
        i += 1;
    }
    assert(whole.take(last as int) =~= whole);
    if !parts[last].as_str().is_empty() {
        let ghost before = out.deep_view();
        out.push(parts[last].clone());
        assert(out.deep_view() =~= before.push(parts@[last as int]@));
    }
    out
}

/// How many characters the pieces hold together.
pub open spec fn total_len(parts: Seq<Seq<char>>) -> nat
    decreases parts.len(),
{
    if parts.len() == 0 {
        0
    } else {
        total_len(parts.drop_last()) + parts.last().len()
    }
}

proof fn lemma_total_len_push(parts: Seq<Seq<char>>, part: Seq<char>)
    ensures
        total_len(parts.push(part)) == total_len(parts) + part.len(),
{
    assert(parts.push(part).drop_last() =~= parts);
}

proof fn lemma_split_total(s: Seq<char>, c: char)
    ensures
        total_len(split(s, c)) <= s.len(),
        split(s, c).len() > 0,
    decreases s.len(),
{
    if s.len() == 0 {
        lemma_total_len_push(Seq::empty(), Seq::empty());
        assert(split(s, c) =~= Seq::<Seq<char>>::empty().push(Seq::empty()));
    } else {
        lemma_split_total(s.drop_last(), c);
        let front = split(s.drop_last(), c);
        if s.last() == c {
            lemma_total_len_push(front, Seq::empty());
        } else {
            lemma_total_len_push(front.drop_last(), front.last().push(s.last()));
        }
    }
}

proof fn lemma_without_cr_total(parts: Seq<Seq<char>>)
    ensures
        total_len(parts.map_values(|line: Seq<char>| without_cr(line))) <= total_len(parts),
    decreases parts.len(),
{
    if parts.len() > 0 {
        lemma_without_cr_total(parts.drop_last());
        let mapped = parts.map_values(|line: Seq<char>| without_cr(line));
        assert(mapped.drop_last() =~= parts.drop_last().map_values(
            |line: Seq<char>| without_cr(line),
        ));
    }
}

/// The lines of a text hold no more characters than the text.
pub proof fn lemma_lines_total(s: Seq<char>)
    ensures
        total_len(lines(s)) <= s.len(),
{
    lemma_split_total(s, '\n');
    let parts = split(s, '\n');
    let whole = parts.drop_last().map_values(|line: Seq<char>| without_cr(line));
    lemma_without_cr_total(parts.drop_last());
    lemma_total_len_push(whole, parts.last());
}

pub proof fn lemma_total_len_prefix(parts: Seq<Seq<char>>, k: int)
    requires
        0 <= k < parts.len(),
    ensures
        total_len(parts.take(k + 1)) == total_len(parts.take(k)) + parts[k].len(),
        total_len(parts.take(k)) + parts[k].len() <= total_len(parts),
    decreases parts.len(),
{
    assert(parts.take(k + 1) =~= parts.take(k).push(parts[k]));
    lemma_total_len_push(parts.take(k), parts[k]);
    if k == parts.len() - 1 {
        assert(parts.take(k + 1) =~= parts);
    } else {
        lemma_total_len_prefix(parts.drop_last(), k);
        assert(parts.drop_last().take(k) =~= parts.take(k));
        assert(parts.drop_last()[k] == parts[k]);
    }
}

/// The parts with `sep` between each two of them.
pub open spec fn join(parts: Seq<Seq<char>>, sep: Seq<char>) -> Seq<char>
    decreases parts.len(),
{
    if parts.len() == 0 {
        Seq::empty()
    } else if parts.len() == 1 {
        parts[0]
    } else {
        join(parts.drop_last(), sep) + sep + parts.last()
    }
}

/// The bytes of two texts in a row are those of the first and then those of the second.
pub proof fn lemma_encoded_concat(a: Seq<char>, b: Seq<char>)
    ensures
        vstd::utf8::encode_utf8(a + b) == vstd::utf8::encode_utf8(a) + vstd::utf8::encode_utf8(b),
    decreases a.len(),
{
    if a.len() == 0 {
        assert(a + b =~= b);
        assert(vstd::utf8::encode_utf8(a) + vstd::utf8::encode_utf8(b) =~= vstd::utf8::encode_utf8(
            b,
        ));
    } else {
        lemma_encoded_concat(a.drop_first(), b);
        assert((a + b).drop_first() =~= a.drop_first() + b);
        assert(vstd::utf8::encode_utf8(a + b) =~= vstd::utf8::encode_utf8(a)
            + vstd::utf8::encode_utf8(b));
    }
}

pub fn join_strings(parts: &[String], sep: &str) -> (r: String)
    ensures
        r@ == join(parts.deep_view(), sep@),
{
    let mut out: String = String::new();
    let mut i: usize = 0;
    let ghost views = parts.deep_view();
    assert(views.take(0).len() == 0);
    while i < parts.len()
        invariant
            i <= parts@.len(),
            views == parts.deep_view(),
            out@ == join(views.take(i as int), sep@),
        decreases parts@.len() - i,
    {
        assert(views.take(i + 1).drop_last() =~= views.take(i as int));
        if i > 0 {
            out.append(sep);
        }
        out.append(parts[i].as_str());
        assert(views[i as int] == parts@[i as int]@);
        if i == 0 {
            assert(out@ =~= views[0]);
        }
        i += 1;
    }
    assert(views.take(parts@.len() as int) =~= views);
    out
}

// ─── Numbers ──────────────────────────────────────────────────────────────────

/// Whether a text comes before another in the order of their characters, as it is compared.
pub open spec fn precedes(a: Seq<char>, b: Seq<char>) -> bool
    decreases a.len(),
{
    if b.len() == 0 {
        false
    } else if a.len() == 0 {
        true
    } else if a[0] != b[0] {
        (a[0] as u32) < (b[0] as u32)
    } else {
        precedes(a.drop_first(), b.drop_first())
    }
}

pub fn comes_before(a: &str, b: &str) -> (r: bool)
    ensures
        r == precedes(a@, b@),
{
    let first = chars_of(a);
    let second = chars_of(b);
    let mut i: usize = 0;
    assert(a@.skip(0) =~= a@ && b@.skip(0) =~= b@);
    while i < first.len() && i < second.len()
        invariant
            first@ == a@,
            second@ == b@,
            i <= first@.len(),
            i <= second@.len(),
            precedes(a@, b@) == precedes(a@.skip(i as int), b@.skip(i as int)),
        decreases first@.len() - i,
    {
        if first[i] != second[i] {
            return (first[i] as u32) < (second[i] as u32);
        }
        assert(a@.skip(i as int).drop_first() =~= a@.skip(i + 1));
        assert(b@.skip(i as int).drop_first() =~= b@.skip(i + 1));
        i += 1;
    }
    i < second.len()
}

/// Texts behind a prefix.
pub open spec fn prefixed(prefix: Seq<char>, items: Seq<Seq<char>>) -> Seq<Seq<char>> {
    items.map_values(|s: Seq<char>| prefix + s)
}

pub fn prefix_all(prefix: &str, items: &Vec<String>) -> (r: Vec<String>)
    ensures
        r.deep_view() == prefixed(prefix@, items.deep_view()),
{
    let ghost all = prefixed(prefix@, items.deep_view());
    let mut out: Vec<String> = Vec::new();
    let mut i: usize = 0;
    assert(out.deep_view() =~= all.take(0));
    while i < items.len()
        invariant
            i <= items@.len(),
            all == prefixed(prefix@, items.deep_view()),
            out.deep_view() == all.take(i as int),
        decreases items@.len() - i,
    {
        assert(items.deep_view()[i as int] == items@[i as int]@);
        let mut line = prefix.to_owned();
        line.append(items[i].as_str());
        crate::data::append_item(&mut out, line);
        assert(all.take(i + 1) =~= all.take(i as int).push(all[i as int]));
        i += 1;
    }
    assert(all.take(all.len() as int) =~= all);
    out
}

pub open spec fn digit_char(n: nat) -> char {
    (n + 48) as u8 as char
}

/// A number in decimal digits, without leading zeros.
pub open spec fn decimal(n: nat) -> Seq<char>
    decreases n,
{
    if n < 10 {
        seq![digit_char(n)]
    } else {
        decimal(n / 10).push(digit_char(n % 10))
    }
}

pub fn decimal_string(n: u128) -> (r: String)
    ensures
        r@ == decimal(n as nat),
    decreases n,
{
    let mut out: String = if n < 10 {
        String::new()
    } else {
        decimal_string(n / 10)
    };
    let d: u8 = (n % 10) as u8 + 48;
    out.push(d as char);
    assert(n < 10 ==> out@ =~= seq![digit_char(n as nat)]);
    out
}

pub fn usize_string(n: usize) -> (r: String)
    ensures
        r@ == decimal(n as nat),
{
    decimal_string(n as u128)
}

/// An integer in decimal digits, with a minus sign where it is negative.
pub open spec fn integer(n: int) -> Seq<char> {
    if n < 0 {
        "-"@ + decimal((-n) as nat)
    } else {
        decimal(n as nat)
    }
}

pub fn integer_string(n: i64) -> (r: String)
    ensures
        r@ == integer(n as int),
{
    if n < 0 {
        let mut out = "-".to_owned();
        let negated: u128 = (-(n as i128)) as u128;
        out.append(decimal_string(negated).as_str());
        out
    } else {
        decimal_string(n as u128)
    }
}

/// The number that a row of decimal digits stands for.
pub open spec fn digits_value(s: Seq<char>) -> nat
    decreases s.len(),
{
    if s.len() == 0 {
        0
    } else {
        digits_value(s.drop_last()) * 10 + (s.last() as u32 - '0' as u32) as nat
    }
}

pub open spec fn all_digits(s: Seq<char>) -> bool {
    forall|i: int| 0 <= i < s.len() ==> is_digit(#[trigger] s[i])
}

/// The text behind an optional plus sign.
pub open spec fn unsigned_part(s: Seq<char>) -> Seq<char> {
    if s.len() > 0 && s[0] == '+' {
        s.drop_first()
    } else {
        s
    }
}

/// Reading a `usize`: an optional plus sign and at least one digit, with a value in range.
pub open spec fn usize_value(s: Seq<char>) -> Option<usize> {
    let digits = unsigned_part(s);
    if digits.len() > 0 && all_digits(digits) && digits_value(digits) <= usize::MAX {
        Some(digits_value(digits) as usize)
    } else {
        None
    }
}

proof fn lemma_digits_value_grows(s: Seq<char>, i: int)
    requires
        all_digits(s),
        0 <= i <= s.len(),
    ensures
        digits_value(s.take(i)) <= digits_value(s),
    decreases s.len(),
{
    if i == s.len() {
        assert(s.take(i) =~= s);
    } else {
        lemma_digits_value_grows(s.drop_last(), i);
        assert(s.drop_last().take(i) =~= s.take(i));
    }
}

pub fn parse_usize(s: &[char]) -> (r: Option<usize>)
    ensures
        r == usize_value(s@),
{
    let digits: &[char] = if s.len() > 0 && s[0] == '+' {
        slice_subrange(s, 1, s.len())
    } else {
        s
    };
    assert(s@.len() > 0 ==> s@.drop_first() =~= s@.subrange(1, s@.len() as int));
    if digits.len() == 0 {
        return None;
    }
    let mut i: usize = 0;
    while i < digits.len()
        invariant
            i <= digits@.len(),
            digits@ == unsigned_part(s@),
            forall|j: int| 0 <= j < i ==> is_digit(#[trigger] digits@[j]),
        decreases digits@.len() - i,
    {
        if !digit(digits[i]) {
            assert(!is_digit(digits@[i as int]));
            return None;
        }
        i += 1;
    }
    let mut value: usize = 0;
    i = 0;
    while i < digits.len()
        invariant
            i <= digits@.len(),
            digits@ == unsigned_part(s@),
            all_digits(digits@),
            value == digits_value(digits@.take(i as int)),
        decreases digits@.len() - i,
    {
        proof {
            assert(digits@.take(i + 1).drop_last() =~= digits@.take(i as int));
            assert(is_digit(digits@[i as int]));
            lemma_digits_value_grows(digits@, i + 1);
        }
        let d: usize = digits[i] as usize - '0' as usize;
        if value > (usize::MAX - d) / 10 {
            assert(value * 10 + d > usize::MAX);
            return None;
        }
        value = value * 10 + d;
        i += 1;
    }
    assert(digits@.take(digits@.len() as int) =~= digits@);
    Some(value)
}

} // verus!

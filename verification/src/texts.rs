//! How texts are trimmed, parted and put together.
use vstd::prelude::*;

use crate::text::{
    decimal, digits_value, ends_with, integer, is_ascii, is_digit, is_whitespace, join, lacks,
    lines, lowercase, nested_split, nesting_from, nesting_step, precedes, split, trim, trim_end, trim_start,
    usize_value, without_last, without_suffix, Nesting,
};

verus! {

// ─── Blanks ───────────────────────────────────────────────────────────────────

/// Whether a text is nothing but whitespace.
pub open spec fn is_white(s: Seq<char>) -> bool {
    forall|i: int| 0 <= i < s.len() ==> is_whitespace(#[trigger] s[i])
}

/// Whether a text neither begins nor ends with whitespace.
pub open spec fn is_trimmed(s: Seq<char>) -> bool {
    s.len() > 0 ==> !is_whitespace(s[0]) && !is_whitespace(s.last())
}

proof fn lemma_before(a: Seq<char>, s: Seq<char>)
    requires
        is_white(a),
    ensures
        trim_start(a + s) == trim_start(s),
    decreases a.len(),
{
    if a.len() > 0 {
        assert(is_whitespace(a[0]));
        assert((a + s).drop_first() =~= a.drop_first() + s);
        assert forall|i: int| 0 <= i < a.drop_first().len() implies is_whitespace(
            #[trigger] a.drop_first()[i],
        ) by {
            assert(is_whitespace(a[i + 1]));
        }
        lemma_before(a.drop_first(), s);
    } else {
        assert(a + s =~= s);
    }
}

proof fn lemma_after(s: Seq<char>, b: Seq<char>)
    requires
        is_white(b),
    ensures
        trim_end(s + b) == trim_end(s),
    decreases b.len(),
{
    if b.len() > 0 {
        assert(is_whitespace(b[b.len() - 1]));
        assert((s + b).drop_last() =~= s + b.drop_last());
        assert forall|i: int| 0 <= i < b.drop_last().len() implies is_whitespace(
            #[trigger] b.drop_last()[i],
        ) by {
            assert(is_whitespace(b[i]));
        }
        lemma_after(s, b.drop_last());
    } else {
        assert(s + b =~= s);
    }
}

/// Whitespace at both ends of a text is trimmed, and nothing else.
pub proof fn whitespace_is_trimmed(a: Seq<char>, s: Seq<char>, b: Seq<char>)
    requires
        is_white(a),
        is_white(b),
        is_trimmed(s),
    ensures
        trim(a + s + b) == s,
        trim(s) == s,
{
    assert(a + s + b =~= a + (s + b));
    lemma_before(a, s + b);
    if s.len() > 0 {
        assert((s + b)[0] == s[0]);
        assert(trim_start(s + b) == s + b);
        lemma_after(s, b);
    } else {
        assert(s + b =~= b + Seq::<char>::empty());
        lemma_before(b, Seq::empty());
        assert(trim_start(Seq::<char>::empty()) =~= Seq::empty());
        assert(s =~= Seq::empty());
    }
}

/// Blanks, tabs and ends of lines are whitespace; letters, digits and signs are not.
pub proof fn whitespace_stands_between_words(c: char)
    ensures
        is_whitespace(' '),
        is_whitespace('\t'),
        is_whitespace('\n'),
        is_whitespace('\r'),
        33 <= c as u32 <= 126 ==> !is_whitespace(c),
{
}

// ─── Parts ────────────────────────────────────────────────────────────────────

/// Parts are put together in their order, with the separator between each two of them.
pub proof fn parts_are_joined(parts: Seq<Seq<char>>, part: Seq<char>, sep: Seq<char>)
    ensures
        join(Seq::empty(), sep) == Seq::<char>::empty(),
        join(seq![part], sep) == part,
        parts.len() > 0 ==> join(parts.push(part), sep) == join(parts, sep) + sep + part,
{
    assert(parts.push(part).drop_last() =~= parts);
}

proof fn lemma_extend(parts: Seq<Seq<char>>, sep: Seq<char>, c: char)
    requires
        parts.len() > 0,
    ensures
        join(parts.drop_last().push(parts.last().push(c)), sep) == join(parts, sep).push(c),
{
    let now = parts.drop_last().push(parts.last().push(c));
    assert(now.drop_last() =~= parts.drop_last());
    if parts.len() == 1 {
        assert(now[0] == parts[0].push(c));
    } else {
        assert(join(now, sep) =~= join(parts, sep).push(c));
    }
}

/// The parts of a text hold no separator, and put together with it they are the text.
pub proof fn parts_make_up_the_text(s: Seq<char>, c: char)
    ensures
        split(s, c).len() > 0,
        join(split(s, c), seq![c]) == s,
        forall|i: int| 0 <= i < split(s, c).len() ==> lacks(#[trigger] split(s, c)[i], c),
    decreases s.len(),
{
    let now = split(s, c);
    if s.len() > 0 {
        let front = split(s.drop_last(), c);
        parts_make_up_the_text(s.drop_last(), c);
        if s.last() == c {
            assert(now.drop_last() =~= front);
            assert(join(now, seq![c]) =~= s);
            assert forall|i: int| 0 <= i < now.len() implies lacks(#[trigger] now[i], c) by {
                if i < front.len() {
                    assert(now[i] == front[i]);
                }
            }
        } else {
            lemma_extend(front, seq![c], s.last());
            assert(s.drop_last().push(s.last()) =~= s);
            assert forall|i: int| 0 <= i < now.len() implies lacks(#[trigger] now[i], c) by {
                if i < front.len() - 1 {
                    assert(now[i] == front[i]);
                } else {
                    assert(lacks(front[front.len() - 1], c));
                }
            }
        }
    } else {
        assert(now =~= seq![Seq::<char>::empty()]);
        assert(join(now, seq![c]) =~= s);
    }
}

proof fn lemma_one_part(s: Seq<char>, c: char)
    requires
        lacks(s, c),
    ensures
        split(s, c) == seq![s],
    decreases s.len(),
{
    if s.len() > 0 {
        lemma_one_part(s.drop_last(), c);
        assert(s[s.len() - 1] != c);
        assert(s.drop_last().push(s.last()) =~= s);
        assert(split(s, c) =~= seq![s]);
    } else {
        assert(s =~= Seq::empty());
    }
}

proof fn lemma_last_part(a: Seq<char>, b: Seq<char>, c: char)
    requires
        lacks(b, c),
    ensures
        split(a.push(c) + b, c) == split(a, c).push(b),
    decreases b.len(),
{
    let s = a.push(c) + b;
    if b.len() > 0 {
        assert(s.drop_last() =~= a.push(c) + b.drop_last());
        assert(b[b.len() - 1] != c);
        lemma_last_part(a, b.drop_last(), c);
        assert(b.drop_last().push(b.last()) =~= b);
        assert(split(s, c) =~= split(a, c).push(b));
    } else {
        assert(s =~= a.push(c));
        assert(s.drop_last() =~= a);
        assert(b =~= Seq::empty());
    }
}

/// A text with one separator more has one part more.
pub proof fn texts_are_split_at_separators(a: Seq<char>, b: Seq<char>, c: char)
    requires
        lacks(b, c),
    ensures
        split(b, c) == seq![b],
        split(a + seq![c] + b, c) == split(a, c).push(b),
{
    lemma_one_part(b, c);
    lemma_last_part(a, b, c);
    assert(a + seq![c] + b =~= a.push(c) + b);
}

/// The end of a line is no part of it, in either of its forms; what follows the last end is a
/// line if there is anything.
pub proof fn lines_end_at_line_feeds(s: Seq<char>, line: Seq<char>)
    requires
        lacks(line, '\n'),
        line.len() > 0,
        line.last() != '\r',
    ensures
        lines(line) == seq![line],
        lines(line + seq!['\n']) == seq![line],
        lines(line + seq!['\r', '\n']) == seq![line],
        lines(Seq::empty()).len() == 0,
        lines(line + seq!['\n'] + line) == seq![line, line],
{
    let none = Seq::<char>::empty();
    lemma_one_part(line, '\n');
    assert(lines(line) =~= seq![line]);
    lemma_last_part(line, none, '\n');
    assert(line.push('\n') + none =~= line + seq!['\n']);
    assert(lines(line + seq!['\n']) =~= seq![line]);
    let cr = line.push('\r');
    assert forall|i: int| 0 <= i < cr.len() implies #[trigger] cr[i] != '\n' by {
        if i < line.len() {
            assert(line[i] != '\n');
        }
    }
    lemma_one_part(cr, '\n');
    lemma_last_part(cr, none, '\n');
    assert(cr.push('\n') + none =~= line + seq!['\r', '\n']);
    assert(cr.drop_last() =~= line);
    assert(lines(line + seq!['\r', '\n']) =~= seq![line]);
    lemma_last_part(line, line, '\n');
    assert(line.push('\n') + line =~= line + seq!['\n'] + line);
    assert(lines(line + seq!['\n'] + line) =~= seq![line, line]);
}

// ─── Brackets ─────────────────────────────────────────────────────────────────

/// Whether a text holds no brackets, and no dash that could begin an arrow.
pub open spec fn is_open(s: Seq<char>) -> bool {
    forall|i: int|
        0 <= i < s.len() ==> #[trigger] s[i] != '<' && s[i] != '>' && s[i] != '(' && s[i] != ')'
            && s[i] != '[' && s[i] != ']' && s[i] != '-'
}

proof fn lemma_nested_joined(s: Seq<char>, delim: char)
    requires
        delim != '<',
        delim != '>',
        delim != '(',
        delim != ')',
        delim != '[',
        delim != ']',
    ensures
        nested_split(s, delim).len() > 0,
        join(nested_split(s, delim), seq![delim]) == s,
    decreases s.len(),
{
    let now = nested_split(s, delim);
    if s.len() > 0 {
        let front = nested_split(s.drop_last(), delim);
        lemma_nested_joined(s.drop_last(), delim);
        lemma_extend(front, seq![delim], s.last());
        assert(s.drop_last().push(s.last()) =~= s);
        if now == front.push(Seq::<char>::empty()) {
            assert(now.drop_last() =~= front);
            assert(join(now, seq![delim]) =~= join(front, seq![delim]) + seq![delim]);
            if s.last() == delim {
                assert(join(now, seq![delim]) =~= s);
            } else {
                assert(now.len() == front.len());
            }
        }
    } else {
        assert(now =~= seq![Seq::<char>::empty()]);
        assert(join(now, seq![delim]) =~= s);
    }
}

/// The pieces between delimiters outside brackets are the text, put together with delimiters.
pub proof fn pieces_make_up_the_text(s: Seq<char>, delim: char)
    requires
        delim == ',' || delim == ';' || delim == ':',
    ensures
        join(nested_split(s, delim), seq![delim]) == s,
{
    lemma_nested_joined(s, delim);
}

/// How the splitting stands behind a text without brackets.
proof fn lemma_outside(s: Seq<char>, delim: char)
    requires
        is_open(s),
        delim == ',' || delim == ';' || delim == ':',
    ensures
        ({
            let n = crate::text::nesting(s, delim);
            n.pieces == split(s, delim) && n.angle == 0 && n.paren == 0 && n.bracket == 0
        }),
    decreases s.len(),
{
    if s.len() > 0 {
        let c = s[s.len() - 1];
        assert(c == s.last());
        assert forall|i: int| 0 <= i < s.drop_last().len() implies #[trigger] s.drop_last()[i]
            != '<' && s.drop_last()[i] != '>' && s.drop_last()[i] != '(' && s.drop_last()[i] != ')'
            && s.drop_last()[i] != '[' && s.drop_last()[i] != ']' && s.drop_last()[i] != '-' by {
            assert(s.drop_last()[i] == s[i]);
        }
        lemma_outside(s.drop_last(), delim);
    }
}

/// Outside brackets a text is split at every delimiter.
pub proof fn texts_without_brackets_are_split(s: Seq<char>, delim: char)
    requires
        is_open(s),
        delim == ',' || delim == ';' || delim == ':',
    ensures
        nested_split(s, delim) == split(s, delim),
{
    lemma_outside(s, delim);
}

/// Whether a splitting is inside a bracket.
spec fn is_inside(n: Nesting) -> bool {
    n.angle > 0 || n.paren > 0 || n.bracket > 0
}

proof fn lemma_inside(n: Nesting, s: Seq<char>, delim: char)
    requires
        n.pieces.len() > 0,
        is_inside(n),
        is_open(s),
        delim == ',' || delim == ';' || delim == ':',
    ensures
        ({
            let m = nesting_from(n, s, delim);
            &&& m.pieces == n.pieces.drop_last().push(n.pieces.last() + s)
            &&& m.angle == n.angle
            &&& m.paren == n.paren
            &&& m.bracket == n.bracket
            &&& s.len() > 0 ==> !m.dash
            &&& s.len() == 0 ==> m.dash == n.dash
        }),
    decreases s.len(),
{
    if s.len() > 0 {
        let c = s[s.len() - 1];
        assert(c == s.last());
        let rest = s.drop_last();
        assert forall|i: int| 0 <= i < rest.len() implies #[trigger] rest[i] != '<' && rest[i]
            != '>' && rest[i] != '(' && rest[i] != ')' && rest[i] != '[' && rest[i] != ']'
            && rest[i] != '-' by {
            assert(rest[i] == s[i]);
        }
        lemma_inside(n, rest, delim);
        let m = nesting_from(n, rest, delim);
        assert(m.pieces.drop_last() =~= n.pieces.drop_last());
        assert((n.pieces.last() + rest).push(c) =~= n.pieces.last() + s);
    } else {
        assert(n.pieces.last() + s =~= n.pieces.last());
        assert(n.pieces.drop_last().push(n.pieces.last()) =~= n.pieces);
    }
}

/// Inside brackets a text is not split.
pub proof fn brackets_hold_together(s: Seq<char>, delim: char)
    requires
        is_open(s),
        delim == ',' || delim == ';' || delim == ':',
    ensures
        nested_split(seq!['('] + s + seq![')'], delim) == seq![seq!['('] + s + seq![')']],
        nested_split(seq!['<'] + s + seq!['>'], delim) == seq![seq!['<'] + s + seq!['>']],
        nested_split(seq!['['] + s + seq![']'], delim) == seq![seq!['['] + s + seq![']']],
{
    lemma_held('(', ')', s, delim);
    lemma_held('<', '>', s, delim);
    lemma_held('[', ']', s, delim);
}

proof fn lemma_more(n: Nesting, a: Seq<char>, b: Seq<char>, delim: char)
    ensures
        nesting_from(n, a + b, delim) == nesting_from(nesting_from(n, a, delim), b, delim),
    decreases b.len(),
{
    if b.len() > 0 {
        assert((a + b).drop_last() =~= a + b.drop_last());
        lemma_more(n, a, b.drop_last(), delim);
    } else {
        assert(a + b =~= a);
    }
}

proof fn lemma_held(open: char, close: char, s: Seq<char>, delim: char)
    requires
        is_open(s),
        delim == ',' || delim == ';' || delim == ':',
        (open == '(' && close == ')') || (open == '<' && close == '>') || (open == '[' && close
            == ']'),
    ensures
        nested_split(seq![open] + s + seq![close], delim) == seq![seq![open] + s + seq![close]],
{
    let start = Nesting {
        pieces: seq![Seq::<char>::empty()],
        angle: 0,
        paren: 0,
        bracket: 0,
        dash: false,
    };
    let none = Seq::<char>::empty();
    let first = nesting_from(start, seq![open], delim);
    assert(seq![open].drop_last() =~= none);
    assert(nesting_from(start, none, delim) == start);
    assert(first == nesting_step(start, open, delim));
    assert(first.pieces =~= seq![seq![open]]);
    lemma_more(start, seq![open], s, delim);
    lemma_inside(first, s, delim);
    let inner = nesting_from(start, seq![open] + s, delim);
    assert(inner.pieces =~= seq![seq![open] + s]);
    lemma_more(start, seq![open] + s, seq![close], delim);
    assert(seq![close].drop_last() =~= none);
    assert(nesting_from(inner, none, delim) == inner);
    let last = nesting_step(inner, close, delim);
    assert(last.pieces =~= seq![seq![open] + s + seq![close]]) by {
        assert((seq![open] + s).push(close) =~= seq![open] + s + seq![close]);
    }
}

// ─── Ends ─────────────────────────────────────────────────────────────────────

/// A suffix is taken away as often as it stands at the end, and nothing else is.
pub proof fn suffixes_are_taken_away(s: Seq<char>, suffix: Seq<char>, c: char)
    requires
        suffix.len() > 0,
    ensures
        without_suffix(s + suffix, suffix) == without_suffix(s, suffix),
        !ends_with(s, suffix) ==> without_suffix(s, suffix) == s,
        without_last(s.push(c), c) == without_last(s, c),
        s.len() > 0 && s.last() != c ==> without_last(s, c) == s,
{
    let all = s + suffix;
    assert(all.subrange(all.len() - suffix.len(), all.len() as int) =~= suffix);
    assert(all.take(all.len() - suffix.len()) =~= s);
    assert(s.push(c).drop_last() =~= s);
}

// ─── Letters and numbers ──────────────────────────────────────────────────────

/// Of ASCII letters the capital ones become small, and everything else stays.
pub proof fn capitals_become_small(s: Seq<char>, i: int)
    requires
        is_ascii(s),
        0 <= i < s.len(),
    ensures
        lowercase(s).len() == s.len(),
        'A' <= s[i] <= 'Z' ==> lowercase(s)[i] as int == s[i] as int + 32,
        !('A' <= s[i] <= 'Z') ==> lowercase(s)[i] == s[i],
{
}

pub(crate) proof fn lemma_decimal(n: nat)
    ensures
        decimal(n).len() > 0,
        crate::text::all_digits(decimal(n)),
        digits_value(decimal(n)) == n,
        n > 0 ==> decimal(n)[0] != '0',
    decreases n,
{
    if n < 10 {
        let d = decimal(n);
        assert(d.drop_last() =~= Seq::empty());
        assert(digits_value(d.drop_last()) == 0);
        assert(d[0] as u32 == n + 48);
    } else {
        lemma_decimal(n / 10);
        let d = decimal(n);
        let front = decimal(n / 10);
        assert(d.drop_last() =~= front);
        assert(d.last() as u32 == n % 10 + 48);
        assert forall|i: int| 0 <= i < d.len() implies is_digit(#[trigger] d[i]) by {
            if i < front.len() {
                assert(d[i] == front[i]);
            }
        }
        assert(d[0] == front[0]);
    }
}

/// Numbers are written in digits that stand for them, without leading zeros, and negative ones
/// behind a minus.
pub proof fn numbers_are_written_in_digits(n: nat)
    ensures
        digits_value(decimal(n)) == n,
        n > 0 ==> decimal(n)[0] != '0',
        n <= usize::MAX ==> usize_value(decimal(n)) == Some(n as usize),
        integer(n as int) == decimal(n),
        n > 0 ==> integer(-(n as int)) == "-"@ + decimal(n),
{
    lemma_decimal(n);
    assert(is_digit(decimal(n)[0]));
}

/// Whether two texts are the same up to a position, and the first is smaller there.
pub open spec fn is_smaller_at(a: Seq<char>, b: Seq<char>, i: int) -> bool {
    &&& 0 <= i <= a.len()
    &&& i < b.len()
    &&& a.take(i) == b.take(i)
    &&& i == a.len() || (a[i] as u32) < (b[i] as u32)
}

/// Texts are ordered by the first character in which they differ; one that another goes on from
/// comes first.
pub proof fn texts_are_ordered_by_characters(a: Seq<char>, b: Seq<char>)
    ensures
        precedes(a, b) <==> exists|i: int| #[trigger] is_smaller_at(a, b, i),
        precedes(a, b) ==> !precedes(b, a),
        !precedes(a, a),
    decreases a.len(),
{
    if a.len() > 0 {
        texts_are_ordered_by_characters(a.drop_first(), a.drop_first());
    }
    if a.len() > 0 && b.len() > 0 {
        let x = a.drop_first();
        let y = b.drop_first();
        texts_are_ordered_by_characters(x, y);
        if a.len() > 0 && a[0] == b[0] {
            assert(a =~= seq![a[0]] + x);
            assert(b =~= seq![b[0]] + y);
        }
        if precedes(a, b) {
            if a[0] == b[0] {
                let i = choose|i: int| #[trigger] is_smaller_at(x, y, i);
                assert(a.take(i + 1) =~= seq![a[0]] + x.take(i));
                assert(b.take(i + 1) =~= seq![b[0]] + y.take(i));
                assert(is_smaller_at(a, b, i + 1));
            } else {
                assert(a.take(0) =~= b.take(0));
                assert(is_smaller_at(a, b, 0));
            }
        }
        if exists|i: int| #[trigger] is_smaller_at(a, b, i) {
            let i = choose|i: int| #[trigger] is_smaller_at(a, b, i);
            if i > 0 {
                assert(a.take(i)[0] == a[0] && b.take(i)[0] == b[0]);
                assert(x.take(i - 1) =~= a.take(i).drop_first());
                assert(y.take(i - 1) =~= b.take(i).drop_first());
                assert(is_smaller_at(x, y, i - 1));
            }
        }
    } else if b.len() > 0 {
        assert(a.take(0) =~= b.take(0));
        assert(is_smaller_at(a, b, 0));
    } else {
        if a.len() == 0 {
            assert(a =~= b);
        }
        assert forall|i: int| !#[trigger] is_smaller_at(a, b, i) by {}
    }
}

} // verus!

//! What the expressions of rules mean, and which dependencies break a rule.
use vstd::prelude::*;

use crate::builtin_rules::{
    is_flat, lemma_absent, lemma_exists, lemma_first_pair, lemma_no_operator, lemma_other_start,
    lemma_own_lowercase, lemma_stability_property, no_logic,
};
use crate::rules::{
    and_operators, comparison_value, expression_value, module_property, negated, operator_from,
    or_empty, or_operators, rule_outcome, sides, stability_text, value_of, violations_from,
    violations_of, EvalContextModel, ObstacleModel, RuleModel, RuleViolationModel, Severity,
};
use crate::spec::{ModuleSpecModel, Stability};
use crate::text;

verus! {

// ─── Comparisons ──────────────────────────────────────────────────────────────

/// Whether a text can stand on one side of a comparison: ASCII characters other than blanks,
/// parentheses and those of operators, and not the word of a negation.
pub open spec fn is_operand(s: Seq<char>) -> bool {
    &&& s.len() > 0
    &&& s != "NOT"@
    &&& s != "not"@
    &&& forall|i: int|
        0 <= i < s.len() ==> (#[trigger] s[i] as u32) < 128 && !text::is_whitespace(s[i]) && s[i]
            != '(' && s[i] != ')' && s[i] != '|' && s[i] != '&' && s[i] != '!' && s[i] != '='
}

/// A comparison of two sides by an operator of two characters.
pub open spec fn comparison(a: Seq<char>, op: Seq<char>, b: Seq<char>) -> Seq<char> {
    a + seq![' '] + op + seq![' '] + b
}

proof fn lemma_comparison_text(a: Seq<char>, op: Seq<char>, b: Seq<char>)
    requires
        is_operand(a),
        is_operand(b),
        op == seq!['=', '='] || op == seq!['!', '='],
    ensures
        ({
            let s = comparison(a, op, b);
            let n = a.len() as int;
            &&& s.len() == n + 4 + b.len()
            &&& s[n] == ' ' && s[n + 1] == op[0] && s[n + 2] == '=' && s[n + 3] == ' '
            &&& is_flat(s)
            &&& text::is_ascii(s)
            &&& !text::is_whitespace(s[0])
            &&& !text::is_whitespace(s.last())
            &&& s[0] == a[0]
            &&& forall|j: int| 0 <= j < n ==> #[trigger] s[j] == a[j]
            &&& forall|j: int|
                0 <= j < s.len() && #[trigger] s[j] == ' ' ==> j == n || j == n + 3
            &&& forall|j: int| 0 <= j < s.len() ==> #[trigger] s[j] != '|' && s[j] != '&'
            &&& forall|j: int|
                0 <= j < s.len() && #[trigger] s[j] == '=' ==> j == n + 1 || j == n + 2
            &&& forall|j: int| 0 <= j < s.len() && #[trigger] s[j] == '!' ==> j == n + 1
            &&& s.take(n + 1) == a.push(' ')
            &&& s.skip(n + 3) == seq![' '] + b
        }),
{
    let s = comparison(a, op, b);
    let n = a.len() as int;
    assert forall|j: int| 0 <= j < s.len() implies (#[trigger] s[j] as u32) < 128 && s[j] != '('
        && s[j] != ')' && s[j] != '|' && s[j] != '&' && (s[j] == ' ' ==> j == n || j == n + 3) && (
    s[j] == '=' ==> j == n + 1 || j == n + 2) && (s[j] == '!' ==> j == n + 1) by {
        if j < n {
            assert(s[j] == a[j]);
        } else if j >= n + 4 {
            assert(s[j] == b[j - n - 4]);
        }
    }
    assert(s[0] == a[0]);
    assert(s.last() == b[b.len() - 1]);
    assert(s.take(n + 1) =~= a.push(' '));
    assert(s.skip(n + 3) =~= seq![' '] + b);
}

/// A comparison holds no logical operator.
#[verifier::spinoff_prover]
proof fn lemma_only_compared(a: Seq<char>, op: Seq<char>, b: Seq<char>, ctx: EvalContextModel)
    requires
        is_operand(a),
        is_operand(b),
        op == seq!['=', '='] || op == seq!['!', '='],
    ensures
        expression_value(comparison(a, op, b), ctx) == comparison_value(comparison(a, op, b), ctx),
{
    let s = comparison(a, op, b);
    let n = a.len() as int;
    lemma_comparison_text(a, op, b);
    reveal_strlit("true");
    reveal_strlit("false");
    reveal_strlit(" OR ");
    reveal_strlit(" or ");
    reveal_strlit("||");
    reveal_strlit(" AND ");
    reveal_strlit(" and ");
    reveal_strlit("&&");
    reveal_strlit("NOT ");
    reveal_strlit("not ");
    reveal_strlit("!");
    reveal_strlit("NOT");
    reveal_strlit("not");
    text::lemma_trim_same(s);
    assert(s != "true"@ && s != "false"@) by {
        assert(s[n] == ' ');
        assert(n < s.len());
    }
    assert forall|k: int| 0 <= k < or_operators().len() implies operator_from(
        s,
        #[trigger] or_operators()[k],
        0,
        0,
    ) == Ok::<Option<int>, ObstacleModel>(None) by {
        let word = or_operators()[k];
        assert forall|j: int| !#[trigger] text::occurs_at(s, word, j) by {
            if text::occurs_at(s, word, j) {
                let part = s.subrange(j, j + word.len());
                assert(part[0] == s[j]);
                assert(part[1] == s[j + 1]);
                if k < 2 {
                    assert(part[3] == s[j + 3]);
                }
            }
        }
        lemma_no_operator(s, word, 0, 0);
    }
    assert forall|k: int| 0 <= k < and_operators().len() implies operator_from(
        s,
        #[trigger] and_operators()[k],
        0,
        0,
    ) == Ok::<Option<int>, ObstacleModel>(None) by {
        let word = and_operators()[k];
        assert forall|j: int| !#[trigger] text::occurs_at(s, word, j) by {
            if text::occurs_at(s, word, j) {
                let part = s.subrange(j, j + word.len());
                assert(part[0] == s[j]);
                assert(part[1] == s[j + 1]);
                if k < 2 {
                    assert(part[4] == s[j + 4]);
                }
            }
        }
        lemma_no_operator(s, word, 0, 0);
    }
    reveal_with_fuel(sides, 4);
    assert(sides(s, or_operators(), 0) is Ok && sides(s, or_operators(), 0)->Ok_0 is None);
    assert(sides(s, and_operators(), 0) is Ok && sides(s, and_operators(), 0)->Ok_0 is None);
    assert(negated(s) is None) by {
        if text::starts_with(s, "NOT "@) || text::starts_with(s, "not "@) {
            let part = s.subrange(0, 4);
            assert(part[0] == s[0] && part[1] == s[1] && part[2] == s[2] && part[3] == s[3]);
            assert(n == 3);
            assert(a =~= "NOT"@ || a =~= "not"@);
        }
        if text::starts_with(s, "!"@) {
            assert(s.subrange(0, 1)[0] == s[0]);
        }
    }
}

/// Two values are compared: `==` holds where they are the same, and `!=` where they are not;
/// what is wrong with a value is wrong with the comparison.
#[verifier::spinoff_prover]
pub proof fn comparisons_compare_values(a: Seq<char>, b: Seq<char>, ctx: EvalContextModel)
    requires
        is_operand(a),
        is_operand(b),
    ensures
        ({
            let same = expression_value(comparison(a, seq!['=', '='], b), ctx);
            let other = expression_value(comparison(a, seq!['!', '='], b), ctx);
            match (value_of(a, ctx), value_of(b, ctx)) {
                (Ok(x), Ok(y)) => same == Ok::<bool, ObstacleModel>(x == y) && other == Ok::<
                    bool,
                    ObstacleModel,
                >(x != y),
                (Err(e), _) => same == Err::<bool, ObstacleModel>(e) && other == Err::<
                    bool,
                    ObstacleModel,
                >(e),
                (_, Err(e)) => same == Err::<bool, ObstacleModel>(e) && other == Err::<
                    bool,
                    ObstacleModel,
                >(e),
            }
        }),
{
    let n = a.len() as int;
    reveal_strlit("==");
    reveal_strlit("!=");
    assert("=="@ =~= seq!['=', '=']);
    assert("!="@ =~= seq!['!', '=']);
    assert(!text::is_whitespace(a[0]) && !text::is_whitespace(a[a.len() - 1]));
    assert(!text::is_whitespace(b[0]) && !text::is_whitespace(b[b.len() - 1]));
    text::lemma_trim_blank(a);
    text::lemma_trim_blank(b);
    let s = comparison(a, seq!['=', '='], b);
    lemma_comparison_text(a, seq!['=', '='], b);
    lemma_only_compared(a, seq!['=', '='], b, ctx);
    lemma_first_pair(s, "=="@, n + 1);
    let t = comparison(a, seq!['!', '='], b);
    lemma_comparison_text(a, seq!['!', '='], b);
    lemma_only_compared(a, seq!['!', '='], b, ctx);
    lemma_first_pair(t, "!="@, n + 1);
    assert(sides(t, seq!["=="@], 0) is Ok && sides(t, seq!["=="@], 0)->Ok_0 is None) by {
        lemma_absent(t, "=="@);
        lemma_no_operator(t, "=="@, 0, 0);
        assert(seq!["=="@][0] == "=="@);
        reveal_with_fuel(sides, 2);
    }
}

// ─── Values ───────────────────────────────────────────────────────────────────

/// The levels of stability have three different names.
pub proof fn levels_have_names()
    ensures
        stability_text(Stability::Stable) == seq!['s', 't', 'a', 'b', 'l', 'e'],
        stability_text(Stability::Normal) == seq!['n', 'o', 'r', 'm', 'a', 'l'],
        stability_text(Stability::Volatile) == seq!['v', 'o', 'l', 'a', 't', 'i', 'l', 'e'],
{
    reveal_strlit("stable");
    reveal_strlit("normal");
    reveal_strlit("volatile");
    assert("stable"@ =~= seq!['s', 't', 'a', 'b', 'l', 'e']);
    assert("normal"@ =~= seq!['n', 'o', 'r', 'm', 'a', 'l']);
    assert("volatile"@ =~= seq!['v', 'o', 'l', 'a', 't', 'i', 'l', 'e']);
}

proof fn lemma_levels_differ(k: Stability, l: Stability)
    ensures
        stability_text(k) == stability_text(l) <==> k == l,
        stability_text(k).len() > 0,
{
    levels_have_names();
    let a = stability_text(k);
    let b = stability_text(l);
    if a == b {
        assert(a[0] == b[0]);
    }
}

proof fn lemma_lowercase_start(s: Seq<char>, i: int)
    requires
        text::is_ascii(s),
        0 <= i < s.len(),
    ensures
        text::lowercase(s).len() == s.len(),
        text::lowercase(s)[i] == text::ascii_lowercase(s[i]),
{
}

/// A text that names a level of stability, however its letters are cased, and with or without
/// `stability::` before it, stands for that level.
pub proof fn levels_stand_for_themselves(s: Seq<char>, l: Stability, ctx: EvalContextModel)
    requires
        text::is_ascii(s),
        text::lowercase(s) == stability_text(l) || text::lowercase(s) == "stability::"@
            + stability_text(l),
    ensures
        value_of(s, ctx) == Ok::<Seq<char>, ObstacleModel>(stability_text(l)),
{
    let low = text::lowercase(s);
    reveal_strlit("stable");
    reveal_strlit("normal");
    reveal_strlit("volatile");
    reveal_strlit("stability::");
    reveal_strlit("stability::stable");
    reveal_strlit("stability::normal");
    reveal_strlit("stability::volatile");
    assert("stability::"@ + "stable"@ =~= "stability::stable"@);
    assert("stability::"@ + "normal"@ =~= "stability::normal"@);
    assert("stability::"@ + "volatile"@ =~= "stability::volatile"@);
    lemma_lowercase_start(s, 0);
    lemma_lowercase_start(s, s.len() - 1);
    assert(low[0] == 's' || low[0] == 'n' || low[0] == 'v');
    assert(low.last() == 'e' || low.last() == 'l');
    assert(!text::is_whitespace(s[0]) && s[0] != '"' && s[0] != '\'');
    assert(!text::is_whitespace(s.last()));
    text::lemma_trim_same(s);
}

/// A text between quote marks stands for what is between them.
pub proof fn quoted_texts_stand_for_their_contents(inner: Seq<char>, q: char, ctx: EvalContextModel)
    requires
        q == '"' || q == '\'',
    ensures
        value_of(seq![q] + inner + seq![q], ctx) == Ok::<Seq<char>, ObstacleModel>(inner),
{
    let s = seq![q] + inner + seq![q];
    text::lemma_trim_same(s);
    assert(s[0] == q && s.last() == q);
    assert(s.subrange(1, s.len() - 1) =~= inner);
}

/// Which module an expression asks.
pub open spec fn asked(of_source: bool, ctx: EvalContextModel) -> ModuleSpecModel {
    if of_source {
        ctx.source
    } else {
        ctx.target
    }
}

/// A property, with the word for its module before it.
pub open spec fn property_text(of_source: bool, property: Seq<char>) -> Seq<char> {
    if of_source {
        seq!['s', 'o', 'u', 'r', 'c', 'e', '.'] + property
    } else {
        seq!['t', 'a', 'r', 'g', 'e', 't', '.'] + property
    }
}

proof fn lemma_prefixes()
    ensures
        "source."@ == seq!['s', 'o', 'u', 'r', 'c', 'e', '.'],
        "target."@ == seq!['t', 'a', 'r', 'g', 'e', 't', '.'],
{
    reveal_strlit("source.");
    reveal_strlit("target.");
    assert("source."@ =~= seq!['s', 'o', 'u', 'r', 'c', 'e', '.']);
    assert("target."@ =~= seq!['t', 'a', 'r', 'g', 'e', 't', '.']);
}

/// A word behind `source.` or `target.` stands for that property of that module.
pub proof fn properties_are_asked_of_their_module(
    of_source: bool,
    property: Seq<char>,
    ctx: EvalContextModel,
)
    requires
        is_operand(property),
    ensures
        value_of(property_text(of_source, property), ctx) == module_property(
            asked(of_source, ctx),
            property,
        ),
{
    let s = property_text(of_source, property);
    let prefix = if of_source {
        "source."@
    } else {
        "target."@
    };
    lemma_prefixes();
    assert(s.subrange(0, 7) =~= prefix);
    assert(s.skip(7) =~= property);
    assert(s.last() == property[property.len() - 1]);
    assert(text::is_ascii(s)) by {
        assert forall|i: int| 0 <= i < s.len() implies (#[trigger] s[i] as u32) < 128 by {
            if i >= 7 {
                assert(s[i] == property[i - 7]);
            }
        }
    }
    text::lemma_trim_same(s);
    lemma_lowercase_start(s, 0);
    lemma_lowercase_start(s, 1);
    lemma_other_start(text::lowercase(s));
    if !of_source {
        assert(!text::starts_with(s, "source."@)) by {
            assert(s.subrange(0, 7)[0] == s[0]);
        }
    }
}

/// The properties of a module: each word stands for one field, which is empty where it is not
/// set.
pub proof fn properties_are_fields(m: ModuleSpecModel)
    ensures
        module_property(m, "module"@) == Ok::<Seq<char>, ObstacleModel>(m.module),
        module_property(m, "name"@) == Ok::<Seq<char>, ObstacleModel>(m.module),
        module_property(m, "language"@) == Ok::<Seq<char>, ObstacleModel>(or_empty(m.language)),
        module_property(m, "source_path"@) == Ok::<Seq<char>, ObstacleModel>(
            or_empty(m.source_path),
        ),
        module_property(m, "path"@) == Ok::<Seq<char>, ObstacleModel>(or_empty(m.source_path)),
        module_property(m, "layer"@) == Ok::<Seq<char>, ObstacleModel>(or_empty(m.layer)),
        module_property(m, "context"@) == Ok::<Seq<char>, ObstacleModel>(or_empty(m.context)),
        m.stability matches Some(l) ==> module_property(m, "stability"@) == Ok::<
            Seq<char>,
            ObstacleModel,
        >(stability_text(l)),
        m.stability is None ==> module_property(m, "stability"@) == Ok::<Seq<char>, ObstacleModel>(
            Seq::empty(),
        ),
{
    reveal_strlit("module");
    reveal_strlit("name");
    reveal_strlit("language");
    reveal_strlit("source_path");
    reveal_strlit("path");
    reveal_strlit("layer");
    reveal_strlit("context");
    reveal_strlit("stability");
    assert("module"@.len() == 6 && "name"@.len() == 4 && "language"@.len() == 8);
    assert("source_path"@.len() == 11 && "path"@.len() == 4 && "layer"@.len() == 5);
    assert("context"@.len() == 7 && "stability"@.len() == 9);
    assert("path"@[0] == 'p' && "name"@[0] == 'n');
}

/// A module of a level of stability has that level and no other, whichever way it is asked.
pub proof fn stability_is_compared_by_level(
    of_source: bool,
    k: Stability,
    l: Stability,
    ctx: EvalContextModel,
)
    requires
        asked(of_source, ctx).stability == Some(l),
    ensures
        ({
            let asked = property_text(of_source, "stability"@);
            let level = stability_text(k);
            &&& expression_value(comparison(asked, seq!['=', '='], level), ctx) == Ok::<
                bool,
                ObstacleModel,
            >(k == l)
            &&& expression_value(comparison(asked, seq!['!', '='], level), ctx) == Ok::<
                bool,
                ObstacleModel,
            >(k != l)
        }),
{
    let property = "stability"@;
    let question = property_text(of_source, property);
    let level = stability_text(k);
    lemma_stability_operands(of_source, k);
    comparisons_compare_values(question, level, ctx);
    properties_are_asked_of_their_module(of_source, property, ctx);
    lemma_stability_property(asked(of_source, ctx));
    levels_stand_for_themselves(level, k, ctx);
    lemma_levels_differ(k, l);
}

proof fn lemma_stability_operands(of_source: bool, k: Stability)
    ensures
        is_operand("stability"@),
        is_operand(property_text(of_source, "stability"@)),
        is_operand(stability_text(k)),
        text::is_ascii(stability_text(k)),
        text::lowercase(stability_text(k)) == stability_text(k),
{
    let property = "stability"@;
    let question = property_text(of_source, property);
    reveal_strlit("stability");
    reveal_strlit("NOT");
    reveal_strlit("not");
    assert("NOT"@.len() == 3 && "not"@.len() == 3);
    levels_have_names();
    assert(is_operand(property));
    assert(is_operand(stability_text(k)));
    assert forall|i: int| 0 <= i < question.len() implies (#[trigger] question[i] as u32) < 128
        && !text::is_whitespace(question[i]) && question[i] != '(' && question[i] != ')'
        && question[i] != '|' && question[i] != '&' && question[i] != '!' && question[i]
        != '=' by {
        if i >= 7 {
            assert(question[i] == property[i - 7]);
        }
    }
    assert(question.len() > 3);
    lemma_own_lowercase(stability_text(k));
}

/// A property exists where it is not empty.
pub proof fn properties_exist_where_they_are_set(
    of_source: bool,
    property: Seq<char>,
    ctx: EvalContextModel,
)
    requires
        is_operand(property),
    ensures
        expression_value(property_text(of_source, property) + ".exists"@, ctx) == (
        match module_property(asked(of_source, ctx), property) {
            Ok(v) => Ok::<bool, ObstacleModel>(v.len() > 0),
            Err(e) => Err(e),
        }),
{
    lemma_prefixes();
    let prefix = if of_source {
        "source."@
    } else {
        "target."@
    };
    assert(no_logic(property));
    lemma_exists(
        property_text(of_source, property) + ".exists"@,
        prefix,
        property,
        of_source,
        ctx,
    );
}

// ─── Logic ────────────────────────────────────────────────────────────────────

/// The ways to write that one of two expressions must hold.
pub open spec fn ways_to_say_or() -> Seq<Seq<char>> {
    seq![seq![' ', 'O', 'R', ' '], seq![' ', 'o', 'r', ' '], seq!['|', '|']]
}

/// The ways to write that both of two expressions must hold.
pub open spec fn ways_to_say_and() -> Seq<Seq<char>> {
    seq![seq![' ', 'A', 'N', 'D', ' '], seq![' ', 'a', 'n', 'd', ' '], seq!['&', '&']]
}

proof fn lemma_ways()
    ensures
        ways_to_say_or() == or_operators(),
        ways_to_say_and() == and_operators(),
{
    reveal_strlit(" OR ");
    reveal_strlit(" or ");
    reveal_strlit("||");
    reveal_strlit(" AND ");
    reveal_strlit(" and ");
    reveal_strlit("&&");
    assert(" OR "@ =~= seq![' ', 'O', 'R', ' ']);
    assert(" or "@ =~= seq![' ', 'o', 'r', ' ']);
    assert("||"@ =~= seq!['|', '|']);
    assert(" AND "@ =~= seq![' ', 'A', 'N', 'D', ' ']);
    assert(" and "@ =~= seq![' ', 'a', 'n', 'd', ' ']);
    assert("&&"@ =~= seq!['&', '&']);
    assert(ways_to_say_or() =~= or_operators());
    assert(ways_to_say_and() =~= and_operators());
}

/// Whether none of the first `k` words stands in an expression.
pub open spec fn lacks_words(s: Seq<char>, words: Seq<Seq<char>>, k: int) -> bool {
    forall|j: int| 0 <= j < k && j < words.len() ==> !text::contains(s, #[trigger] words[j])
}

/// Whether an expression is parted by a word: it is flat, no blank surrounds it, and the word
/// stands first between the two parts.
pub open spec fn is_parted(left: Seq<char>, word: Seq<char>, right: Seq<char>) -> bool {
    let s = left + word + right;
    &&& is_flat(s)
    &&& left.len() > 0
    &&& right.len() > 0
    &&& !text::is_whitespace(left[0])
    &&& !text::is_whitespace(right.last())
    &&& forall|j: int| 0 <= j < left.len() ==> !#[trigger] text::occurs_at(s, word, j)
}

proof fn lemma_flat_ascii(s: Seq<char>)
    requires
        is_flat(s),
    ensures
        text::is_ascii(s),
{
}

proof fn lemma_found(s: Seq<char>, op: Seq<char>, i: int, at: int)
    requires
        is_flat(s),
        0 <= i <= at < s.len(),
        text::occurs_at(s, op, at),
        forall|j: int| i <= j < at ==> !#[trigger] text::occurs_at(s, op, j),
    ensures
        operator_from(s, op, i, 0) == Ok::<Option<int>, ObstacleModel>(Some(at)),
    decreases at - i,
{
    if i < at {
        lemma_found(s, op, i + 1, at);
    }
}

/// The sides of the first of some words that stands in an expression.
proof fn lemma_parted(
    words: Seq<Seq<char>>,
    k: int,
    left: Seq<char>,
    right: Seq<char>,
    from: int,
)
    requires
        0 <= from <= k < words.len(),
        words[k].len() > 0,
        is_parted(left, words[k], right),
        lacks_words(left + words[k] + right, words, k),
    ensures
        sides(left + words[k] + right, words, from) == Ok::<
            Option<(Seq<char>, Seq<char>)>,
            ObstacleModel,
        >(Some((left, right))),
    decreases k - from,
{
    let s = left + words[k] + right;
    let n = left.len() as int;
    let w = words[k].len();
    lemma_flat_ascii(s);
    if from < k {
        assert(!text::contains(s, words[from]));
        lemma_no_operator(s, words[from], 0, 0);
        lemma_parted(words, k, left, right, from + 1);
    } else {
        assert(s.subrange(n, n + w) =~= words[k]);
        lemma_found(s, words[k], 0, n);
        assert(s.take(n) =~= left);
        assert(s.skip(n + w) =~= right);
    }
}

proof fn lemma_unparted(s: Seq<char>, words: Seq<Seq<char>>, from: int)
    requires
        0 <= from <= words.len(),
        text::is_ascii(s),
        lacks_words(s, words, words.len() as int),
    ensures
        sides(s, words, from) == Ok::<Option<(Seq<char>, Seq<char>)>, ObstacleModel>(None),
    decreases words.len() - from,
{
    if from < words.len() {
        assert(!text::contains(s, words[from]));
        lemma_no_operator(s, words[from], 0, 0);
        lemma_unparted(s, words, from + 1);
    }
}

proof fn lemma_no_literal(left: Seq<char>, word: Seq<char>, right: Seq<char>)
    requires
        left.len() > 0,
        right.len() > 0,
        word.len() >= 2,
        word[0] == ' ' || word[0] == '|' || word[0] == '&',
    ensures
        left + word + right != "true"@,
        left + word + right != "false"@,
{
    let s = left + word + right;
    let n = left.len() as int;
    reveal_strlit("true");
    reveal_strlit("false");
    assert(s[n] == word[0]);
    if s == "true"@ {
        assert("true"@.len() == 4 && s.len() == n + word.len() + right.len());
        assert(n == 1 || n == 2 || n == 3);
    }
    if s == "false"@ {
        assert("false"@.len() == 5 && s.len() == n + word.len() + right.len());
        assert(n == 1 || n == 2 || n == 3 || n == 4);
    }
}

/// A disjunction has the value of its first side, unless that is false: then it has the value
/// of its second.
pub proof fn disjunctions_hold_where_a_side_does(
    k: int,
    left: Seq<char>,
    right: Seq<char>,
    ctx: EvalContextModel,
)
    requires
        0 <= k < 3,
        is_parted(left, ways_to_say_or()[k], right),
        lacks_words(left + ways_to_say_or()[k] + right, ways_to_say_or(), k),
    ensures
        expression_value(left + ways_to_say_or()[k] + right, ctx) == (
        if expression_value(left, ctx) == Ok::<bool, ObstacleModel>(false) {
            expression_value(right, ctx)
        } else {
            expression_value(left, ctx)
        }),
{
    let word = ways_to_say_or()[k];
    let s = left + word + right;
    lemma_ways();
    lemma_no_literal(left, word, right);
    lemma_parted(or_operators(), k, left, right, 0);
    assert(s[0] == left[0]);
    assert(s.last() == right.last());
    text::lemma_trim_same(s);
}

/// A conjunction has the value of its first side, unless that is true: then it has the value
/// of its second. Disjunctions bind weaker.
pub proof fn conjunctions_hold_where_both_sides_do(
    k: int,
    left: Seq<char>,
    right: Seq<char>,
    ctx: EvalContextModel,
)
    requires
        0 <= k < 3,
        is_parted(left, ways_to_say_and()[k], right),
        lacks_words(left + ways_to_say_and()[k] + right, ways_to_say_and(), k),
        lacks_words(left + ways_to_say_and()[k] + right, ways_to_say_or(), 3),
    ensures
        expression_value(left + ways_to_say_and()[k] + right, ctx) == (
        if expression_value(left, ctx) == Ok::<bool, ObstacleModel>(true) {
            expression_value(right, ctx)
        } else {
            expression_value(left, ctx)
        }),
{
    let word = ways_to_say_and()[k];
    let s = left + word + right;
    lemma_ways();
    lemma_no_literal(left, word, right);
    lemma_flat_ascii(s);
    lemma_unparted(s, or_operators(), 0);
    lemma_parted(and_operators(), k, left, right, 0);
    assert(s[0] == left[0]);
    assert(s.last() == right.last());
    text::lemma_trim_same(s);
}

/// A negation holds where the expression behind it does not, however it is written.
pub proof fn negations_hold_where_expressions_do_not(
    word: Seq<char>,
    inner: Seq<char>,
    ctx: EvalContextModel,
)
    requires
        word == seq!['N', 'O', 'T', ' '] || word == seq!['n', 'o', 't', ' '] || word == seq!['!'],
        inner.len() > 0,
        text::is_ascii(inner),
        !text::is_whitespace(inner[0]),
        !text::is_whitespace(inner.last()),
        lacks_words(word + inner, ways_to_say_or(), 3),
        lacks_words(word + inner, ways_to_say_and(), 3),
    ensures
        expression_value(word + inner, ctx) == (match expression_value(inner, ctx) {
            Ok(b) => Ok::<bool, ObstacleModel>(!b),
            Err(e) => Err(e),
        }),
{
    let s = word + inner;
    let w = word.len() as int;
    lemma_ways();
    reveal_strlit("true");
    reveal_strlit("false");
    reveal_strlit("NOT ");
    reveal_strlit("not ");
    reveal_strlit("!");
    assert("NOT "@ =~= seq!['N', 'O', 'T', ' ']);
    assert("not "@ =~= seq!['n', 'o', 't', ' ']);
    assert("!"@ =~= seq!['!']);
    assert(text::is_ascii(s)) by {
        assert forall|i: int| 0 <= i < s.len() implies (#[trigger] s[i] as u32) < 128 by {
            if i >= w {
                assert(s[i] == inner[i - w]);
            }
        }
    }
    assert(s[0] == word[0]);
    assert(s.last() == inner.last());
    text::lemma_trim_same(s);
    text::lemma_trim_same(inner);
    assert(s != "true"@ && s != "false"@);
    lemma_unparted(s, or_operators(), 0);
    lemma_unparted(s, and_operators(), 0);
    assert(s.subrange(0, w) =~= word);
    assert(s.skip(w) =~= inner);
    if word == seq!['!'] {
        assert(!text::starts_with(s, "NOT "@) && !text::starts_with(s, "not "@)) by {
            if s.len() >= 4 {
                assert(s.subrange(0, 4)[0] == s[0]);
            }
        }
    }
}

/// The two words for truth have their values.
pub proof fn truths_are_written(ctx: EvalContextModel)
    ensures
        expression_value(seq!['t', 'r', 'u', 'e'], ctx) == Ok::<bool, ObstacleModel>(true),
        expression_value(seq!['f', 'a', 'l', 's', 'e'], ctx) == Ok::<bool, ObstacleModel>(false),
{
    reveal_strlit("true");
    reveal_strlit("false");
    let yes = seq!['t', 'r', 'u', 'e'];
    let no = seq!['f', 'a', 'l', 's', 'e'];
    assert("true"@ =~= yes);
    assert("false"@ =~= no);
    text::lemma_trim_same(yes);
    text::lemma_trim_same(no);
    assert(no.len() == 5 && yes.len() == 4);
}

// ─── Rules ────────────────────────────────────────────────────────────────────

/// A dependency breaks a rule where the rule applies and what it requires does not hold; the
/// violation has the name and the severity of the rule. A rule with an error is broken with an
/// error.
pub proof fn rules_are_broken_where_their_requirement_fails(rule: RuleModel, ctx: EvalContextModel)
    ensures
        expression_value(rule.when, ctx) == Ok::<bool, ObstacleModel>(false) ==> rule_outcome(
            rule,
            ctx,
        ) == Some(None::<RuleViolationModel>),
        expression_value(rule.when, ctx) == Ok::<bool, ObstacleModel>(true) && expression_value(
            rule.require,
            ctx,
        ) == Ok::<bool, ObstacleModel>(true) ==> rule_outcome(rule, ctx) == Some(
            None::<RuleViolationModel>,
        ),
        expression_value(rule.when, ctx) == Ok::<bool, ObstacleModel>(true) && expression_value(
            rule.require,
            ctx,
        ) == Ok::<bool, ObstacleModel>(false) ==> (rule_outcome(rule, ctx) matches Some(Some(v))
            && v.rule_name == rule.name && v.severity == rule.severity),
        expression_value(rule.when, ctx) matches Err(ObstacleModel::Error(_)) ==> (rule_outcome(
            rule,
            ctx,
        ) matches Some(Some(v)) && v.rule_name == rule.name && v.severity == Severity::Error),
        expression_value(rule.when, ctx) == Ok::<bool, ObstacleModel>(true) && expression_value(
            rule.require,
            ctx,
        ) is Err && expression_value(rule.require, ctx)->Err_0 is Error ==> (rule_outcome(
            rule,
            ctx,
        ) matches Some(Some(v)) && v.rule_name == rule.name && v.severity == Severity::Error),
{
}

/// Whether a rule is broken, so that a violation follows.
pub open spec fn follows_from(v: RuleViolationModel, rule: RuleModel, ctx: EvalContextModel) -> bool {
    rule_outcome(rule, ctx) == Some(Some(v))
}

/// What a module is called in reports: by where its source lies, or else by its name.
pub open spec fn is_called(m: ModuleSpecModel, label: Seq<char>) -> bool {
    m.source_path == Some(label) || m.source_path is None && m.module == label
}

/// A violation tells both modules, and behind them the description of the rule; the name where it
/// has no description.
pub proof fn violations_say_what_is_broken(
    rule: RuleModel,
    ctx: EvalContextModel,
    v: RuleViolationModel,
    source: Seq<char>,
    target: Seq<char>,
)
    requires
        expression_value(rule.when, ctx) == Ok::<bool, ObstacleModel>(true),
        expression_value(rule.require, ctx) == Ok::<bool, ObstacleModel>(false),
        follows_from(v, rule, ctx),
        is_called(ctx.source, source),
        is_called(ctx.target, target),
    ensures
        rule.description matches Some(d) ==> v.message == "'"@ + source + "' -> '"@ + target
            + "': "@ + d,
        rule.description is None ==> v.message == "'"@ + source + "' -> '"@ + target + "': "@
            + rule.name,
{
}

proof fn lemma_violations(
    rules: Seq<RuleModel>,
    i: int,
    done: Seq<RuleViolationModel>,
    ctx: EvalContextModel,
    v: RuleViolationModel,
)
    requires
        0 <= i <= rules.len(),
        violations_from(rules, i, done, ctx) is Some,
    ensures
        violations_from(rules, i, done, ctx)->Some_0.contains(v) <==> done.contains(v) || exists|
            k: int,
        |
            i <= k < rules.len() && follows_from(v, #[trigger] rules[k], ctx),
    decreases rules.len() - i,
{
    if i < rules.len() {
        let next = match rule_outcome(rules[i], ctx) {
            Some(Some(w)) => done.push(w),
            _ => done,
        };
        lemma_violations(rules, i + 1, next, ctx, v);
        assert(next.contains(v) <==> done.contains(v) || follows_from(v, rules[i], ctx)) by {
            if let Some(Some(w)) = rule_outcome(rules[i], ctx) {
                assert(next[done.len() as int] == w);
                if done.contains(v) {
                    let k = choose|k: int| 0 <= k < done.len() && done[k] == v;
                    assert(next[k] == v);
                }
                if next.contains(v) {
                    let k = choose|k: int| 0 <= k < next.len() && next[k] == v;
                    if k < done.len() {
                        assert(done[k] == v);
                    }
                }
            }
        }
        if exists|k: int| i <= k < rules.len() && follows_from(v, #[trigger] rules[k], ctx) {
            let k = choose|k: int| i <= k < rules.len() && follows_from(v, #[trigger] rules[k], ctx);
            if k > i {
                assert(follows_from(v, rules[k], ctx));
            }
        }
        if exists|k: int| i + 1 <= k < rules.len() && follows_from(v, #[trigger] rules[k], ctx) {
            let k = choose|k: int|
                i + 1 <= k < rules.len() && follows_from(v, #[trigger] rules[k], ctx);
            assert(follows_from(v, rules[k], ctx));
        }
    }
}

/// The violations of a dependency are those of the rules that it breaks, and no others.
pub proof fn all_broken_rules_are_listed(
    rules: Seq<RuleModel>,
    ctx: EvalContextModel,
    v: RuleViolationModel,
)
    requires
        violations_of(rules, ctx) is Some,
    ensures
        violations_of(rules, ctx)->Some_0.contains(v) <==> exists|k: int|
            0 <= k < rules.len() && follows_from(v, #[trigger] rules[k], ctx),
{
    lemma_violations(rules, 0, Seq::empty(), ctx, v);
}

} // verus!

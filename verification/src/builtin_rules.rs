//! What the built-in rules come to.
use vstd::prelude::*;

use crate::rules::{
    and_operators, asked_property, builtin_rule_models, comparison_value, dependency_allowed,
    expression_value, module_property, negated, operator_from, or_empty, or_operators,
    property_exists, rule_outcome, sides, stability_text, value_of, EvalContextModel, ObstacleModel,
};
use crate::spec::{layer_allows, steadiness, ModuleSpecModel};
use crate::text;

verus! {

/// Whether all characters are ASCII and none is a parenthesis.
pub open spec fn is_flat(s: Seq<char>) -> bool {
    forall|i: int|
        0 <= i < s.len() ==> (#[trigger] s[i] as u32) < 128 && s[i] != '(' && s[i] != ')'
}

/// An operator that stands nowhere is not found.
pub(crate) proof fn lemma_no_operator(s: Seq<char>, op: Seq<char>, i: int, depth: int)
    requires
        text::is_ascii(s),
        forall|j: int| !#[trigger] text::occurs_at(s, op, j),
    ensures
        operator_from(s, op, i, depth) == Ok::<Option<int>, ObstacleModel>(None),
    decreases s.len() - i,
{
    if 0 <= i < s.len() {
        lemma_no_operator(s, op, i + 1, depth);
        lemma_no_operator(s, op, i + 1, depth + 1);
        lemma_no_operator(s, op, i + 1, depth - 1);
    }
}

/// An operator is found where it first stands.
pub(crate) proof fn lemma_operator(s: Seq<char>, op: Seq<char>, i: int, at: int)
    requires
        is_flat(s),
        0 <= i <= at < s.len(),
        text::occurs_at(s, op, at),
        forall|j: int| i <= j < at ==> !#[trigger] text::occurs_at(s, op, j),
    ensures
        operator_from(s, op, i, 0) == Ok::<Option<int>, ObstacleModel>(Some(at)),
    decreases at - i,
{
    if i < at {
        lemma_operator(s, op, i + 1, at);
    }
}

/// An operator stands nowhere if its second character follows its first nowhere.
pub(crate) proof fn lemma_absent(s: Seq<char>, op: Seq<char>)
    requires
        op.len() >= 2,
        forall|j: int| 0 <= j < s.len() - 1 ==> !(#[trigger] s[j] == op[0] && s[j + 1] == op[1]),
    ensures
        forall|j: int| !#[trigger] text::occurs_at(s, op, j),
{
    assert forall|j: int| !#[trigger] text::occurs_at(s, op, j) by {
        if text::occurs_at(s, op, j) {
            let part = s.subrange(j, j + op.len());
            assert(part[0] == s[j]);
            assert(part[1] == s[j + 1]);
        }
    }
}

/// Whether no logical operator stands in a text.
pub open spec fn no_logic(s: Seq<char>) -> bool {
    forall|j: int|
        0 <= j < s.len() ==> #[trigger] s[j] != ' ' && s[j] != '|' && s[j] != '&' && s[j] != '!'
            && s[j] != '='
}

/// The value of an expression without operators.
pub(crate) proof fn lemma_simple(s: Seq<char>, ctx: EvalContextModel)
    requires
        s.len() > 5,
        text::is_ascii(s),
        no_logic(s),
        !text::is_whitespace(s[0]),
        !text::is_whitespace(s.last()),
    ensures
        expression_value(s, ctx) == (if text::contains(s, ".can_depend_on("@) {
            dependency_allowed(s, ctx)
        } else if text::contains(s, ".exists"@) {
            property_exists(s, ctx)
        } else {
            match value_of(s, ctx) {
                Ok(v) => Ok(v.len() > 0 && v != "none"@ && v != "null"@),
                Err(e) => Err(e),
            }
        }),
{
    reveal_strlit("true");
    reveal_strlit("false");
    reveal_strlit(" OR ");
    reveal_strlit(" or ");
    reveal_strlit("||");
    reveal_strlit(" AND ");
    reveal_strlit(" and ");
    reveal_strlit("&&");
    reveal_strlit("==");
    reveal_strlit("!=");
    reveal_strlit("NOT ");
    reveal_strlit("not ");
    reveal_strlit("!");
    text::lemma_trim_same(s);
    assert(s != "true"@);
    assert(s != "false"@);
    assert forall|j: int| 0 <= j < or_operators().len() implies operator_from(
        s,
        #[trigger] or_operators()[j],
        0,
        0,
    ) == Ok::<Option<int>, ObstacleModel>(None) by {
        lemma_absent(s, or_operators()[j]);
        lemma_no_operator(s, or_operators()[j], 0, 0);
    }
    assert forall|j: int| 0 <= j < and_operators().len() implies operator_from(
        s,
        #[trigger] and_operators()[j],
        0,
        0,
    ) == Ok::<Option<int>, ObstacleModel>(None) by {
        lemma_absent(s, and_operators()[j]);
        lemma_no_operator(s, and_operators()[j], 0, 0);
    }
    reveal_with_fuel(sides, 4);
    assert(sides(s, or_operators(), 0) is Ok && sides(s, or_operators(), 0)->Ok_0 is None);
    assert(sides(s, and_operators(), 0) is Ok && sides(s, and_operators(), 0)->Ok_0 is None);
    lemma_absent(s, "=="@);
    lemma_no_operator(s, "=="@, 0, 0);
    lemma_absent(s, "!="@);
    lemma_no_operator(s, "!="@, 0, 0);
    assert(sides(s, seq!["=="@], 0)->Ok_0 is None);
    assert(sides(s, seq!["!="@], 0)->Ok_0 is None);
    assert(negated(s) is None) by {
        assert(s[0] != ' ');
        if text::starts_with(s, "NOT "@) {
            assert("NOT "@[3] == s.take(4)[3]);
        }
        if text::starts_with(s, "not "@) {
            assert("not "@[3] == s.take(4)[3]);
        }
        if text::starts_with(s, "!"@) {
            assert("!"@[0] == s.take(1)[0]);
        }
    }
}

/// Whether an `AND` is the first logical operator of an expression, and no `or` stands in it.
pub open spec fn joins(s: Seq<char>, at: int) -> bool {
    &&& is_flat(s)
    &&& 0 < at
    &&& at + 5 < s.len()
    &&& !text::is_whitespace(s[0])
    &&& !text::is_whitespace(s.last())
    &&& forall|j: int| 0 <= j < s.len() ==> #[trigger] s[j] != '|' && s[j] != 'O'
    &&& forall|j: int| 0 <= j < s.len() - 1 ==> !(#[trigger] s[j] == ' ' && s[j + 1] == 'o')
    &&& text::occurs_at(s, " AND "@, at)
    &&& forall|j: int| 0 <= j < at ==> #[trigger] s[j] != 'A'
}

/// The value of two expressions that an `AND` joins.
proof fn lemma_both(s: Seq<char>, at: int, ctx: EvalContextModel)
    requires
        joins(s, at),
    ensures
        expression_value(s, ctx) == (match expression_value(s.take(at), ctx) {
            Ok(true) => expression_value(s.skip(at + 5), ctx),
            other => other,
        }),
{
    reveal_strlit("true");
    reveal_strlit("false");
    reveal_strlit(" OR ");
    reveal_strlit(" or ");
    reveal_strlit("||");
    reveal_strlit(" AND ");
    text::lemma_trim_same(s);
    assert(s != "true"@ && s != "false"@) by {
        assert(s.subrange(at, at + 5)[0] == s[at]);
        assert(s[at] == ' ');
        assert(s.len() > 6);
    }
    assert forall|j: int| 0 <= j < or_operators().len() implies operator_from(
        s,
        #[trigger] or_operators()[j],
        0,
        0,
    ) == Ok::<Option<int>, ObstacleModel>(None) by {
        lemma_absent(s, or_operators()[j]);
        lemma_no_operator(s, or_operators()[j], 0, 0);
    }
    reveal_with_fuel(sides, 4);
    assert(sides(s, or_operators(), 0) is Ok && sides(s, or_operators(), 0)->Ok_0 is None);
    assert forall|j: int| 0 <= j < at implies !#[trigger] text::occurs_at(s, " AND "@, j) by {
        if text::occurs_at(s, " AND "@, j) {
            assert(s.subrange(j, j + 5)[1] == s[j + 1]);
            assert(s.subrange(at, at + 5)[0] == s[at]);
        }
    }
    lemma_operator(s, " AND "@, 0, at);
    assert(and_operators()[0] == " AND "@);
    assert(sides(s, and_operators(), 0) == Ok::<Option<(Seq<char>, Seq<char>)>, ObstacleModel>(
        Some((s.take(at), s.skip(at + 5))),
    ));
}

/// Whether an expression that asks for a property of the source, or of the target, holds.
#[verifier::rlimit(60)]
#[verifier::spinoff_prover]
pub(crate) proof fn lemma_exists(
    s: Seq<char>,
    prefix: Seq<char>,
    property: Seq<char>,
    of_source: bool,
    ctx: EvalContextModel,
)
    requires
        prefix == (if of_source {
            "source."@
        } else {
            "target."@
        }),
        s == prefix + property + ".exists"@,
        property.len() > 0,
        text::is_ascii(property),
        no_logic(property),
        forall|j: int| 0 <= j < property.len() ==> #[trigger] property[j] != '(',
    ensures
        expression_value(s, ctx) == (match module_property(
            if of_source {
                ctx.source
            } else {
                ctx.target
            },
            property,
        ) {
            Ok(v) => Ok(v.len() > 0),
            Err(e) => Err(e),
        }),
{
    reveal_strlit("source.");
    reveal_strlit("target.");
    reveal_strlit(".exists");
    reveal_strlit(".can_depend_on(");
    let n = property.len() as int;
    assert forall|i: int| 0 <= i < s.len() implies (#[trigger] s[i] as u32) < 128 && s[i] != ' '
        && s[i] != '|' && s[i] != '&' && s[i] != '!' && s[i] != '=' && s[i] != '(' by {
        if 7 <= i < 7 + n {
            assert(s[i] == property[i - 7]);
        } else if i < 7 {
            assert(s[i] == prefix[i]);
        } else {
            assert(s[i] == ".exists"@[i - 7 - n]);
        }
    }
    assert(s[0] == prefix[0]);
    assert(s.last() == ".exists"@[6]);
    lemma_simple(s, ctx);
    assert(!text::contains(s, ".can_depend_on("@)) by {
        assert forall|j: int| !#[trigger] text::occurs_at(s, ".can_depend_on("@, j) by {
            if text::occurs_at(s, ".can_depend_on("@, j) {
                assert(s.subrange(j, j + 15)[14] == s[j + 14]);
            }
        }
    }
    assert(s.subrange(7 + n, 7 + n + 7) =~= ".exists"@);
    assert(text::occurs_at(s, ".exists"@, 7 + n));
    assert(s.subrange(0, 7) =~= prefix);
    assert(text::starts_with(s, prefix));
    if !of_source {
        assert(!text::starts_with(s, "source."@)) by {
            assert(s.subrange(0, 7)[0] == s[0]);
        }
    }
    let rest = s.skip(7);
    assert(rest =~= property + ".exists"@);
    assert(rest.subrange(n, n + 7) =~= ".exists"@);
    assert(text::ends_with(rest, ".exists"@));
    assert(rest.take(rest.len() - 7) =~= property);
    assert(asked_property(s) == property);
}

/// The requirement that a dependency goes the right way between layers.
proof fn lemma_layer_requirement(ctx: EvalContextModel)
    ensures
        expression_value("source.layer.can_depend_on(target.layer)"@, ctx) == (match (
            ctx.source.layer,
            ctx.target.layer,
        ) {
            (Some(a), Some(b)) => Ok::<bool, ObstacleModel>(layer_allows(ctx.layers, a, b)),
            _ => Ok(true),
        }),
{
    let s = "source.layer.can_depend_on(target.layer)"@;
    reveal_strlit("source.layer.can_depend_on(target.layer)");
    reveal_strlit(".can_depend_on(");
    reveal_strlit("layer.can_depend_on");
    assert(text::is_ascii(s));
    assert(no_logic(s));
    lemma_simple(s, ctx);
    assert(s.subrange(12, 27) =~= ".can_depend_on("@);
    assert(text::occurs_at(s, ".can_depend_on("@, 12));
    assert(s.subrange(7, 26) =~= "layer.can_depend_on"@);
    assert(text::occurs_at(s, "layer.can_depend_on"@, 7));
}

/// The requirement that a dependency goes the right way between levels of stability.
proof fn lemma_stability_requirement(ctx: EvalContextModel)
    ensures
        expression_value("source.stability.can_depend_on(target.stability)"@, ctx) == (match (
            ctx.source.stability,
            ctx.target.stability,
        ) {
            (Some(a), Some(b)) => Ok::<bool, ObstacleModel>(steadiness(a) <= steadiness(b)),
            _ => Ok(true),
        }),
{
    let s = "source.stability.can_depend_on(target.stability)"@;
    reveal_strlit("source.stability.can_depend_on(target.stability)");
    reveal_strlit(".can_depend_on(");
    reveal_strlit("layer.can_depend_on");
    reveal_strlit("stability.can_depend_on");
    assert(text::is_ascii(s));
    assert(no_logic(s));
    lemma_simple(s, ctx);
    assert(s.subrange(16, 31) =~= ".can_depend_on("@);
    assert(text::occurs_at(s, ".can_depend_on("@, 16));
    assert(s.subrange(7, 30) =~= "stability.can_depend_on"@);
    assert(text::occurs_at(s, "stability.can_depend_on"@, 7));
    lemma_absent(s, "layer.can_depend_on"@);
}

/// Whether both modules have a layer.
pub open spec fn both_have_layers(ctx: EvalContextModel) -> bool {
    or_empty(ctx.source.layer).len() > 0 && or_empty(ctx.target.layer).len() > 0
}

/// Whether both modules have a level of stability.
pub open spec fn both_have_stability(ctx: EvalContextModel) -> bool {
    ctx.source.stability is Some && ctx.target.stability is Some
}

/// A dependency breaks the rule on layers exactly where both modules have a layer and the
/// layer of the first may not depend on that of the second.
pub proof fn layer_direction(ctx: EvalContextModel)
    ensures
        ({
            let rule = builtin_rule_models()[0];
            &&& rule.name == "layer-direction"@
            &&& rule_outcome(rule, ctx) is Some
            &&& rule_outcome(rule, ctx)->Some_0 is Some <==> both_have_layers(ctx)
                && !layer_allows(ctx.layers, ctx.source.layer->Some_0, ctx.target.layer->Some_0)
        }),
{
    lemma_layer_condition(ctx);
    lemma_layer_requirement(ctx);
}

/// The condition that both modules have a layer.
proof fn lemma_layer_condition(ctx: EvalContextModel)
    ensures
        expression_value("source.layer.exists AND target.layer.exists"@, ctx) == Ok::<
            bool,
            ObstacleModel,
        >(both_have_layers(ctx)),
{
    let s = "source.layer.exists AND target.layer.exists"@;
    lemma_layer_joined();
    lemma_both(s, 19, ctx);
    lemma_layer_sides();
    assert(text::is_ascii("layer"@) && no_logic("layer"@) && "layer"@.len() > 0 && (forall|j: int|
        0 <= j < "layer"@.len() ==> #[trigger] "layer"@[j] != '(')) by {
        reveal_strlit("layer");
    }
    lemma_exists(s.take(19), "source."@, "layer"@, true, ctx);
    lemma_exists(s.skip(24), "target."@, "layer"@, false, ctx);
    lemma_layer_property(ctx.source);
    lemma_layer_property(ctx.target);
}

proof fn lemma_layer_joined()
    ensures
        joins("source.layer.exists AND target.layer.exists"@, 19),
{
    let s = "source.layer.exists AND target.layer.exists"@;
    reveal_strlit("source.layer.exists AND target.layer.exists");
    reveal_strlit(" AND ");
    assert(s.subrange(19, 24) =~= " AND "@);
}

proof fn lemma_layer_sides()
    ensures
        "source.layer.exists AND target.layer.exists"@.take(19) == "source."@ + "layer"@
            + ".exists"@,
        "source.layer.exists AND target.layer.exists"@.skip(24) == "target."@ + "layer"@
            + ".exists"@,
{
    let s = "source.layer.exists AND target.layer.exists"@;
    reveal_strlit("source.layer.exists AND target.layer.exists");
    reveal_strlit("source.");
    reveal_strlit("target.");
    reveal_strlit(".exists");
    reveal_strlit("layer");
    assert(s.take(19) =~= "source."@ + "layer"@ + ".exists"@);
    assert(s.skip(24) =~= "target."@ + "layer"@ + ".exists"@);
}

pub(crate) proof fn lemma_layer_property(m: ModuleSpecModel)
    ensures
        module_property(m, "layer"@) == Ok::<Seq<char>, ObstacleModel>(or_empty(m.layer)),
{
    reveal_strlit("layer");
    reveal_strlit("module");
    reveal_strlit("name");
    reveal_strlit("language");
    reveal_strlit("source_path");
    reveal_strlit("path");
    assert("layer"@.len() == 5);
    assert("layer"@ != "module"@ && "layer"@ != "name"@ && "layer"@ != "language"@);
    assert("layer"@ != "source_path"@ && "layer"@ != "path"@);
}

pub(crate) proof fn lemma_stability_property(m: ModuleSpecModel)
    ensures
        module_property(m, "stability"@) == Ok::<Seq<char>, ObstacleModel>(
            match m.stability {
                Some(s) => stability_text(s),
                None => Seq::empty(),
            },
        ),
{
    reveal_strlit("layer");
    reveal_strlit("module");
    reveal_strlit("name");
    reveal_strlit("language");
    reveal_strlit("source_path");
    reveal_strlit("path");
    reveal_strlit("context");
    reveal_strlit("stability");
    assert("stability"@.len() == 9);
}

/// A dependency breaks the rule on stability exactly where both modules have a level of
/// stability and that of the first is higher.
pub proof fn stability_direction(ctx: EvalContextModel)
    ensures
        ({
            let rule = builtin_rule_models()[2];
            &&& rule.name == "stability-direction"@
            &&& rule_outcome(rule, ctx) is Some
            &&& rule_outcome(rule, ctx)->Some_0 is Some <==> both_have_stability(ctx)
                && steadiness(ctx.source.stability->Some_0) > steadiness(
                ctx.target.stability->Some_0,
            )
        }),
{
    lemma_stability_condition(ctx);
    lemma_stability_requirement(ctx);
}

/// The condition that both modules have a level of stability.
proof fn lemma_stability_condition(ctx: EvalContextModel)
    ensures
        expression_value("source.stability.exists AND target.stability.exists"@, ctx) == Ok::<
            bool,
            ObstacleModel,
        >(both_have_stability(ctx)),
{
    let s = "source.stability.exists AND target.stability.exists"@;
    lemma_stability_joined();
    lemma_both(s, 23, ctx);
    lemma_stability_sides();
    assert(text::is_ascii("stability"@) && no_logic("stability"@) && "stability"@.len() > 0 && (forall|j: int|
        0 <= j < "stability"@.len() ==> #[trigger] "stability"@[j] != '(')) by {
        reveal_strlit("stability");
    }
    lemma_exists(s.take(23), "source."@, "stability"@, true, ctx);
    lemma_exists(s.skip(28), "target."@, "stability"@, false, ctx);
    lemma_stability_property(ctx.source);
    lemma_stability_property(ctx.target);
    reveal_strlit("stable");
    reveal_strlit("normal");
    reveal_strlit("volatile");
}

proof fn lemma_stability_joined()
    ensures
        joins("source.stability.exists AND target.stability.exists"@, 23),
{
    let s = "source.stability.exists AND target.stability.exists"@;
    reveal_strlit("source.stability.exists AND target.stability.exists");
    reveal_strlit(" AND ");
    assert(s.subrange(23, 28) =~= " AND "@);
}

proof fn lemma_stability_sides()
    ensures
        "source.stability.exists AND target.stability.exists"@.take(23) == "source."@
            + "stability"@ + ".exists"@,
        "source.stability.exists AND target.stability.exists"@.skip(28) == "target."@
            + "stability"@ + ".exists"@,
{
    let s = "source.stability.exists AND target.stability.exists"@;
    reveal_strlit("source.stability.exists AND target.stability.exists");
    reveal_strlit("source.");
    reveal_strlit("target.");
    reveal_strlit(".exists");
    reveal_strlit("stability");
    assert(s.take(23) =~= "source."@ + "stability"@ + ".exists"@);
    assert(s.skip(28) =~= "target."@ + "stability"@ + ".exists"@);
}

/// Whether a text holds no logical operator, though it may hold blanks.
pub open spec fn is_comparison(s: Seq<char>) -> bool {
    &&& is_flat(s)
    &&& s.len() > 5
    &&& !text::is_whitespace(s[0])
    &&& !text::is_whitespace(s.last())
    &&& s[0] != '!' && s[0] != 'N' && s[0] != 'n'
    &&& forall|j: int|
        0 <= j < s.len() ==> #[trigger] s[j] != '|' && s[j] != '&' && s[j] != 'O' && s[j] != 'A'
    &&& forall|j: int|
        0 <= j < s.len() - 1 ==> !(#[trigger] s[j] == ' ' && (s[j + 1] == 'o' || s[j + 1] == 'a'))
}

/// The value of an expression without logical operators.
proof fn lemma_comparison(s: Seq<char>, ctx: EvalContextModel)
    requires
        is_comparison(s),
    ensures
        expression_value(s, ctx) == comparison_value(s, ctx),
{
    reveal_strlit("true");
    reveal_strlit("false");
    reveal_strlit(" OR ");
    reveal_strlit(" or ");
    reveal_strlit("||");
    reveal_strlit(" AND ");
    reveal_strlit(" and ");
    reveal_strlit("&&");
    reveal_strlit("NOT ");
    reveal_strlit("not ");
    reveal_strlit("!");
    text::lemma_trim_same(s);
    assert forall|j: int| 0 <= j < or_operators().len() implies operator_from(
        s,
        #[trigger] or_operators()[j],
        0,
        0,
    ) == Ok::<Option<int>, ObstacleModel>(None) by {
        lemma_absent(s, or_operators()[j]);
        lemma_no_operator(s, or_operators()[j], 0, 0);
    }
    assert forall|j: int| 0 <= j < and_operators().len() implies operator_from(
        s,
        #[trigger] and_operators()[j],
        0,
        0,
    ) == Ok::<Option<int>, ObstacleModel>(None) by {
        lemma_absent(s, and_operators()[j]);
        lemma_no_operator(s, and_operators()[j], 0, 0);
    }
    reveal_with_fuel(sides, 4);
    assert(sides(s, or_operators(), 0) is Ok && sides(s, or_operators(), 0)->Ok_0 is None);
    assert(sides(s, and_operators(), 0) is Ok && sides(s, and_operators(), 0)->Ok_0 is None);
    assert(negated(s) is None) by {
        if text::starts_with(s, "NOT "@) {
            assert("NOT "@[0] == s.subrange(0, 4)[0]);
        }
        if text::starts_with(s, "not "@) {
            assert("not "@[0] == s.subrange(0, 4)[0]);
        }
        if text::starts_with(s, "!"@) {
            assert("!"@[0] == s.subrange(0, 1)[0]);
        }
    }
}

/// The first operator of two characters stands where its second character first follows its
/// first.
pub(crate) proof fn lemma_first_pair(s: Seq<char>, op: Seq<char>, at: int)
    requires
        is_flat(s),
        op.len() == 2,
        0 <= at < s.len() - 1,
        s[at] == op[0],
        s[at + 1] == op[1],
        forall|j: int| 0 <= j < at ==> !(#[trigger] s[j] == op[0] && s[j + 1] == op[1]),
    ensures
        sides(s, seq![op], 0) == Ok::<Option<(Seq<char>, Seq<char>)>, ObstacleModel>(
            Some((s.take(at), s.skip(at + 2))),
        ),
{
    assert(s.subrange(at, at + 2) =~= op);
    assert forall|j: int| 0 <= j < at implies !#[trigger] text::occurs_at(s, op, j) by {
        if text::occurs_at(s, op, j) {
            assert(s.subrange(j, j + 2)[0] == s[j]);
            assert(s.subrange(j, j + 2)[1] == s[j + 1]);
        }
    }
    lemma_operator(s, op, 0, at);
    assert(seq![op][0] == op);
}

/// Whether the names in the rule on contexts are their own lowercase forms.
pub open spec fn names_are_lowercase() -> bool {
    &&& text::lowercase("source.context"@) == "source.context"@
    &&& text::lowercase("target.context"@) == "target.context"@
    &&& text::lowercase("source.layer"@) == "source.layer"@
    &&& text::lowercase("target.layer"@) == "target.layer"@
    &&& text::lowercase("interface"@) == "interface"@
    &&& text::lowercase("presentation"@) == "presentation"@
}

/// A text of ASCII characters without uppercase letters is its own lowercase form.
pub(crate) proof fn lemma_own_lowercase(s: Seq<char>)
    requires
        text::is_ascii(s),
        forall|i: int| 0 <= i < s.len() ==> !('A' <= #[trigger] s[i] <= 'Z'),
    ensures
        text::lowercase(s) == s,
{
    assert(s.map_values(|c: char| text::ascii_lowercase(c)) =~= s);
}

proof fn lemma_lowercase_names()
    ensures
        names_are_lowercase(),
{
    reveal_strlit("source.context");
    reveal_strlit("target.context");
    reveal_strlit("source.layer");
    reveal_strlit("target.layer");
    reveal_strlit("interface");
    reveal_strlit("presentation");
    lemma_own_lowercase("source.context"@);
    lemma_own_lowercase("target.context"@);
    lemma_own_lowercase("source.layer"@);
    lemma_own_lowercase("target.layer"@);
    lemma_own_lowercase("interface"@);
    lemma_own_lowercase("presentation"@);
}

/// A name that is no level of stability.
pub open spec fn is_no_level(s: Seq<char>) -> bool {
    &&& s != "stable"@ && s != "stability::stable"@
    &&& s != "normal"@ && s != "stability::normal"@
    &&& s != "volatile"@ && s != "stability::volatile"@
}

pub(crate) proof fn lemma_other_start(s: Seq<char>)
    requires
        s.len() > 1,
        s[0] == 's' ==> s[1] == 'o',
        s[0] == 's' || s[0] == 't' || s[0] == 'i' || s[0] == 'p',
    ensures
        is_no_level(s),
{
    reveal_strlit("stable");
    reveal_strlit("stability::stable");
    reveal_strlit("normal");
    reveal_strlit("stability::normal");
    reveal_strlit("volatile");
    reveal_strlit("stability::volatile");
}

/// The value of a property of the source, or of the target.
proof fn lemma_property_value(
    s: Seq<char>,
    prefix: Seq<char>,
    property: Seq<char>,
    of_source: bool,
    ctx: EvalContextModel,
)
    requires
        prefix == (if of_source {
            "source."@
        } else {
            "target."@
        }),
        s == prefix + property,
        property.len() > 0,
        !text::is_whitespace(property.last()),
        text::lowercase(s) == s,
    ensures
        value_of(s, ctx) == module_property(
            if of_source {
                ctx.source
            } else {
                ctx.target
            },
            property,
        ),
{
    reveal_strlit("source.");
    reveal_strlit("target.");
    assert(s[0] == prefix[0]);
    assert(s[1] == prefix[1]);
    assert(s.last() == property.last());
    text::lemma_trim_same(s);
    lemma_other_start(s);
    assert(s.subrange(0, 7) =~= prefix);
    assert(text::starts_with(s, prefix));
    if !of_source {
        assert(!text::starts_with(s, "source."@)) by {
            assert(s.subrange(0, 7)[0] == s[0]);
        }
    }
    assert(s.skip(7) =~= property);
}

pub(crate) proof fn lemma_context_property(m: ModuleSpecModel)
    ensures
        module_property(m, "context"@) == Ok::<Seq<char>, ObstacleModel>(or_empty(m.context)),
{
    reveal_strlit("layer");
    reveal_strlit("module");
    reveal_strlit("name");
    reveal_strlit("language");
    reveal_strlit("source_path");
    reveal_strlit("path");
    reveal_strlit("context");
    assert("context"@.len() == 7);
}

/// Whether the contexts differ.
proof fn lemma_contexts_differ(ctx: EvalContextModel)
    requires
        text::lowercase("source.context"@) == "source.context"@,
        text::lowercase("target.context"@) == "target.context"@,
    ensures
        expression_value("source.context != target.context"@, ctx) == Ok::<bool, ObstacleModel>(
            or_empty(ctx.source.context) != or_empty(ctx.target.context),
        ),
{
    let s = "source.context != target.context"@;
    let a = "source.context"@;
    let b = "target.context"@;
    assert(is_comparison(s)) by {
        reveal_strlit("source.context != target.context");
    }
    lemma_comparison(s, ctx);
    assert(sides(s, seq!["=="@], 0) is Ok && sides(s, seq!["=="@], 0)->Ok_0 is None) by {
        reveal_strlit("source.context != target.context");
        reveal_strlit("==");
        lemma_absent(s, "=="@);
        lemma_no_operator(s, "=="@, 0, 0);
        assert(seq!["=="@][0] == "=="@);
        reveal_with_fuel(sides, 2);
    }
    assert(sides(s, seq!["!="@], 0) == Ok::<Option<(Seq<char>, Seq<char>)>, ObstacleModel>(
        Some((s.take(15), s.skip(17))),
    )) by {
        reveal_strlit("source.context != target.context");
        reveal_strlit("!=");
        lemma_first_pair(s, "!="@, 15);
    }
    lemma_context_names();
    assert(s.take(15) == a.push(' ') && s.skip(17) == seq![' '] + b) by {
        reveal_strlit("source.context != target.context");
        reveal_strlit("source.context");
        reveal_strlit("target.context");
        assert(s.take(15) =~= a.push(' '));
        assert(s.skip(17) =~= seq![' '] + b);
    }
    text::lemma_trim_blank(a);
    text::lemma_trim_blank(b);
    lemma_property_value(a, "source."@, "context"@, true, ctx);
    lemma_property_value(b, "target."@, "context"@, false, ctx);
    lemma_context_property(ctx.source);
    lemma_context_property(ctx.target);
}

proof fn lemma_context_names()
    ensures
        "source.context"@ == "source."@ + "context"@,
        "target.context"@ == "target."@ + "context"@,
        "source.context"@.len() == 14,
        "target.context"@.len() == 14,
        "source.context"@[0] == 's',
        "target.context"@[0] == 't',
        "source.context"@.last() == 't',
        "target.context"@.last() == 't',
        "context"@.len() == 7,
        "context"@.last() == 't',
{
    reveal_strlit("source.context");
    reveal_strlit("target.context");
    reveal_strlit("source.");
    reveal_strlit("target.");
    reveal_strlit("context");
    assert("source.context"@ =~= "source."@ + "context"@);
    assert("target.context"@ =~= "target."@ + "context"@);
}

proof fn lemma_layer_names()
    ensures
        "source.layer"@ == "source."@ + "layer"@,
        "target.layer"@ == "target."@ + "layer"@,
        "source.layer"@.len() == 12,
        "target.layer"@.len() == 12,
        "source.layer"@[0] == 's',
        "target.layer"@[0] == 't',
        "source.layer"@.last() == 'r',
        "target.layer"@.last() == 'r',
        "layer"@.len() == 5,
        "layer"@.last() == 'r',
        "interface"@.len() == 9,
        "interface"@[0] == 'i',
        "interface"@.last() == 'e',
        "presentation"@.len() == 12,
        "presentation"@[0] == 'p',
        "presentation"@.last() == 'n',
{
    reveal_strlit("source.layer");
    reveal_strlit("target.layer");
    reveal_strlit("source.");
    reveal_strlit("target.");
    reveal_strlit("layer");
    reveal_strlit("interface");
    reveal_strlit("presentation");
    assert("source.layer"@ =~= "source."@ + "layer"@);
    assert("target.layer"@ =~= "target."@ + "layer"@);
}

/// The name of the layer through which contexts may depend on each other.
pub open spec fn open_layer(presented: bool) -> Seq<char> {
    if presented {
        "presentation"@
    } else {
        "interface"@
    }
}

proof fn lemma_layer_value(presented: bool, ctx: EvalContextModel)
    requires
        names_are_lowercase(),
    ensures
        value_of(open_layer(presented), ctx) == Ok::<Seq<char>, ObstacleModel>(
            open_layer(presented),
        ),
{
    let s = open_layer(presented);
    reveal_strlit("interface");
    reveal_strlit("presentation");
    reveal_strlit("source.");
    reveal_strlit("target.");
    text::lemma_trim_same(s);
    lemma_other_start(s);
    assert(!text::starts_with(s, "source."@)) by {
        assert(s.subrange(0, 7)[0] == s[0]);
    }
    assert(!text::starts_with(s, "target."@)) by {
        assert(s.subrange(0, 7)[0] == s[0]);
    }
}

/// The expression that a module is at a layer through which contexts may depend.
pub open spec fn at_open_layer(of_source: bool, presented: bool) -> Seq<char> {
    if of_source {
        if presented {
            "source.layer == presentation"@
        } else {
            "source.layer == interface"@
        }
    } else {
        if presented {
            "target.layer == presentation"@
        } else {
            "target.layer == interface"@
        }
    }
}

proof fn lemma_at_open_layer(of_source: bool, presented: bool)
    ensures
        ({
            let s = at_open_layer(of_source, presented);
            let a = if of_source {
                "source.layer"@
            } else {
                "target.layer"@
            };
            &&& is_comparison(s)
            &&& sides(s, seq!["=="@], 0) == Ok::<Option<(Seq<char>, Seq<char>)>, ObstacleModel>(
                Some((s.take(13), s.skip(15))),
            )
            &&& s.take(13) == a.push(' ')
            &&& s.skip(15) == seq![' '] + open_layer(presented)
        }),
{
    let s = at_open_layer(of_source, presented);
    let a = if of_source {
        "source.layer"@
    } else {
        "target.layer"@
    };
    reveal_strlit("source.layer == interface");
    reveal_strlit("target.layer == interface");
    reveal_strlit("source.layer == presentation");
    reveal_strlit("target.layer == presentation");
    assert(is_comparison(s));
    assert(sides(s, seq!["=="@], 0) == Ok::<Option<(Seq<char>, Seq<char>)>, ObstacleModel>(
        Some((s.take(13), s.skip(15))),
    )) by {
        reveal_strlit("==");
        lemma_first_pair(s, "=="@, 13);
    }
    assert(s.take(13) == a.push(' ') && s.skip(15) == seq![' '] + open_layer(presented)) by {
        reveal_strlit("source.layer");
        reveal_strlit("target.layer");
        reveal_strlit("interface");
        reveal_strlit("presentation");
        assert(s.take(13) =~= a.push(' '));
        assert(s.skip(15) =~= seq![' '] + open_layer(presented));
    }
}

/// Whether a module is at a layer.
pub open spec fn is_at(m: ModuleSpecModel, layer: Seq<char>) -> bool {
    or_empty(m.layer) == layer
}

/// Whether the source, or the target, is at a layer through which contexts may depend.
proof fn lemma_is_open_layer(of_source: bool, presented: bool, ctx: EvalContextModel)
    requires
        names_are_lowercase(),
    ensures
        expression_value(at_open_layer(of_source, presented), ctx) == Ok::<bool, ObstacleModel>(
            is_at(
                if of_source {
                    ctx.source
                } else {
                    ctx.target
                },
                open_layer(presented),
            ),
        ),
{
    let a = if of_source {
        "source.layer"@
    } else {
        "target.layer"@
    };
    let s = at_open_layer(of_source, presented);
    lemma_layer_names();
    lemma_at_open_layer(of_source, presented);
    lemma_comparison(s, ctx);
    text::lemma_trim_blank(a);
    text::lemma_trim_blank(open_layer(presented));
    if of_source {
        lemma_property_value(a, "source."@, "layer"@, true, ctx);
        lemma_layer_property(ctx.source);
    } else {
        lemma_property_value(a, "target."@, "layer"@, false, ctx);
        lemma_layer_property(ctx.target);
    }
    lemma_layer_value(presented, ctx);
}

/// Whether an `OR` that joins two expressions stands at a position.
spec fn joins_either(s: Seq<char>, at: int) -> bool {
    &&& is_flat(s)
    &&& 0 < at
    &&& at + 4 < s.len()
    &&& !text::is_whitespace(s[0])
    &&& !text::is_whitespace(s.last())
    &&& text::occurs_at(s, " OR "@, at)
    &&& forall|j: int| 0 <= j < at ==> #[trigger] s[j] != 'O'
}

/// The value of two expressions that an `OR` joins.
proof fn lemma_either(s: Seq<char>, at: int, ctx: EvalContextModel)
    requires
        joins_either(s, at),
        s.len() > 5,
    ensures
        expression_value(s, ctx) == (match expression_value(s.take(at), ctx) {
            Ok(false) => expression_value(s.skip(at + 4), ctx),
            other => other,
        }),
{
    reveal_strlit("true");
    reveal_strlit("false");
    reveal_strlit(" OR ");
    text::lemma_trim_same(s);
    assert forall|j: int| 0 <= j < at implies !#[trigger] text::occurs_at(s, " OR "@, j) by {
        if text::occurs_at(s, " OR "@, j) {
            assert(s.subrange(j, j + 4)[1] == s[j + 1]);
            assert(s.subrange(at, at + 4)[0] == s[at]);
        }
    }
    lemma_operator(s, " OR "@, 0, at);
    assert(or_operators()[0] == " OR "@);
    reveal_with_fuel(sides, 2);
    assert(sides(s, or_operators(), 0) == Ok::<Option<(Seq<char>, Seq<char>)>, ObstacleModel>(
        Some((s.take(at), s.skip(at + 4))),
    ));
}

proof fn lemma_requirement_one()
    ensures
        ({
            let s = "source.layer == interface OR target.layer == interface OR source.layer == presentation OR target.layer == presentation"@;
            &&& joins_either(s, 25)
            &&& s.take(25) == at_open_layer(true, false)
            &&& s.skip(29) == "target.layer == interface OR source.layer == presentation OR target.layer == presentation"@
        }),
{
    let s = "source.layer == interface OR target.layer == interface OR source.layer == presentation OR target.layer == presentation"@;
    reveal_strlit("source.layer == interface OR target.layer == interface OR source.layer == presentation OR target.layer == presentation");
    reveal_strlit(" OR ");
    assert(s.subrange(25, 29) =~= " OR "@);
    assert(s.take(25) == at_open_layer(true, false)) by {
        reveal_strlit("source.layer == interface");
        assert(s.take(25) =~= at_open_layer(true, false));
    }
    assert(s.skip(29) == "target.layer == interface OR source.layer == presentation OR target.layer == presentation"@) by {
        reveal_strlit("target.layer == interface OR source.layer == presentation OR target.layer == presentation");
        assert(s.skip(29) =~= "target.layer == interface OR source.layer == presentation OR target.layer == presentation"@);
    }
}

proof fn lemma_requirement_two()
    ensures
        ({
            let s = "target.layer == interface OR source.layer == presentation OR target.layer == presentation"@;
            &&& joins_either(s, 25)
            &&& s.take(25) == at_open_layer(false, false)
            &&& s.skip(29) == "source.layer == presentation OR target.layer == presentation"@
        }),
{
    let s = "target.layer == interface OR source.layer == presentation OR target.layer == presentation"@;
    reveal_strlit("target.layer == interface OR source.layer == presentation OR target.layer == presentation");
    reveal_strlit(" OR ");
    assert(s.subrange(25, 29) =~= " OR "@);
    assert(s.take(25) == at_open_layer(false, false)) by {
        reveal_strlit("target.layer == interface");
        assert(s.take(25) =~= at_open_layer(false, false));
    }
    assert(s.skip(29) == "source.layer == presentation OR target.layer == presentation"@) by {
        reveal_strlit("source.layer == presentation OR target.layer == presentation");
        assert(s.skip(29) =~= "source.layer == presentation OR target.layer == presentation"@);
    }
}

proof fn lemma_requirement_three()
    ensures
        ({
            let s = "source.layer == presentation OR target.layer == presentation"@;
            &&& joins_either(s, 28)
            &&& s.take(28) == at_open_layer(true, true)
            &&& s.skip(32) == at_open_layer(false, true)
        }),
{
    let s = "source.layer == presentation OR target.layer == presentation"@;
    reveal_strlit("source.layer == presentation OR target.layer == presentation");
    reveal_strlit(" OR ");
    assert(s.subrange(28, 32) =~= " OR "@);
    assert(s.take(28) == at_open_layer(true, true)) by {
        reveal_strlit("source.layer == presentation");
        assert(s.take(28) =~= at_open_layer(true, true));
    }
    assert(s.skip(32) == at_open_layer(false, true)) by {
        reveal_strlit("target.layer == presentation");
        assert(s.skip(32) =~= at_open_layer(false, true));
    }
}

/// Whether one of the modules is at a layer through which contexts may depend on each other.
pub open spec fn goes_through_open_layer(ctx: EvalContextModel) -> bool {
    ||| is_at(ctx.source, "interface"@)
    ||| is_at(ctx.target, "interface"@)
    ||| is_at(ctx.source, "presentation"@)
    ||| is_at(ctx.target, "presentation"@)
}

proof fn lemma_open_layer_requirement(ctx: EvalContextModel)
    requires
        names_are_lowercase(),
    ensures
        expression_value(
            "source.layer == interface OR target.layer == interface OR source.layer == presentation OR target.layer == presentation"@,
            ctx,
        ) == Ok::<bool, ObstacleModel>(goes_through_open_layer(ctx)),
{
    let one = "source.layer == interface OR target.layer == interface OR source.layer == presentation OR target.layer == presentation"@;
    let two = "target.layer == interface OR source.layer == presentation OR target.layer == presentation"@;
    let three = "source.layer == presentation OR target.layer == presentation"@;
    lemma_requirement_one();
    lemma_requirement_two();
    lemma_requirement_three();
    lemma_either(one, 25, ctx);
    lemma_either(two, 25, ctx);
    lemma_either(three, 28, ctx);
    lemma_is_open_layer(true, false, ctx);
    lemma_is_open_layer(false, false, ctx);
    lemma_is_open_layer(true, true, ctx);
    lemma_is_open_layer(false, true, ctx);
}

/// Whether both modules have a context, and these differ.
pub open spec fn contexts_differ(ctx: EvalContextModel) -> bool {
    &&& or_empty(ctx.source.context).len() > 0
    &&& or_empty(ctx.target.context).len() > 0
    &&& or_empty(ctx.source.context) != or_empty(ctx.target.context)
}

proof fn lemma_context_parts()
    ensures
        ({
            let s =
                "source.context.exists AND target.context.exists AND source.context != target.context"@;
            let rest = "target.context.exists AND source.context != target.context"@;
            &&& joins(s, 21)
            &&& joins(rest, 21)
            &&& s.skip(26) == rest
            &&& s.take(21) == "source."@ + "context"@ + ".exists"@
            &&& rest.take(21) == "target."@ + "context"@ + ".exists"@
            &&& rest.skip(26) == "source.context != target.context"@
        }),
{
    let s =
        "source.context.exists AND target.context.exists AND source.context != target.context"@;
    let rest = "target.context.exists AND source.context != target.context"@;
    assert(joins(s, 21)) by {
        reveal_strlit(
            "source.context.exists AND target.context.exists AND source.context != target.context",
        );
        reveal_strlit(" AND ");
        assert(s.subrange(21, 26) =~= " AND "@);
    }
    assert(joins(rest, 21)) by {
        reveal_strlit("target.context.exists AND source.context != target.context");
        reveal_strlit(" AND ");
        assert(rest.subrange(21, 26) =~= " AND "@);
    }
    assert(s.skip(26) == rest) by {
        reveal_strlit(
            "source.context.exists AND target.context.exists AND source.context != target.context",
        );
        reveal_strlit("target.context.exists AND source.context != target.context");
        assert(s.skip(26) =~= rest);
    }
    assert(s.take(21) == "source."@ + "context"@ + ".exists"@) by {
        reveal_strlit(
            "source.context.exists AND target.context.exists AND source.context != target.context",
        );
        reveal_strlit("source.");
        reveal_strlit("context");
        reveal_strlit(".exists");
        assert(s.take(21) =~= "source."@ + "context"@ + ".exists"@);
    }
    assert(rest.take(21) == "target."@ + "context"@ + ".exists"@) by {
        reveal_strlit("target.context.exists AND source.context != target.context");
        reveal_strlit("target.");
        reveal_strlit("context");
        reveal_strlit(".exists");
        assert(rest.take(21) =~= "target."@ + "context"@ + ".exists"@);
    }
    assert(rest.skip(26) == "source.context != target.context"@) by {
        reveal_strlit("target.context.exists AND source.context != target.context");
        reveal_strlit("source.context != target.context");
        assert(rest.skip(26) =~= "source.context != target.context"@);
    }
}

/// The condition that both modules have a context, and these differ.
proof fn lemma_context_condition(ctx: EvalContextModel)
    requires
        names_are_lowercase(),
    ensures
        expression_value(
            "source.context.exists AND target.context.exists AND source.context != target.context"@,
            ctx,
        ) == Ok::<bool, ObstacleModel>(contexts_differ(ctx)),
{
    let s =
        "source.context.exists AND target.context.exists AND source.context != target.context"@;
    let rest = "target.context.exists AND source.context != target.context"@;
    lemma_context_parts();
    lemma_both(s, 21, ctx);
    lemma_both(rest, 21, ctx);
    assert(text::is_ascii("context"@) && no_logic("context"@) && "context"@.len() > 0 && (forall|j: int|
        0 <= j < "context"@.len() ==> #[trigger] "context"@[j] != '(')) by {
        reveal_strlit("context");
    }
    lemma_exists(s.take(21), "source."@, "context"@, true, ctx);
    lemma_exists(rest.take(21), "target."@, "context"@, false, ctx);
    lemma_context_property(ctx.source);
    lemma_context_property(ctx.target);
    lemma_contexts_differ(ctx);
}

/// A dependency breaks the rule on contexts exactly where both modules have a context, these
/// differ, and neither module is at the interface or the presentation layer.
pub proof fn context_isolation(ctx: EvalContextModel)
    ensures
        ({
            let rule = builtin_rule_models()[1];
            &&& rule.name == "context-isolation"@
            &&& rule_outcome(rule, ctx) is Some
            &&& rule_outcome(rule, ctx)->Some_0 is Some <==> contexts_differ(ctx)
                && !goes_through_open_layer(ctx)
        }),
{
    lemma_lowercase_names();
    lemma_context_condition(ctx);
    lemma_open_layer_requirement(ctx);
}

} // verus!

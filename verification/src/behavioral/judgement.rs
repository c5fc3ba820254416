//! What is asked of code, and what is made of the answers.
use vstd::prelude::*;

use super::llm::{
    backoff, check_mode_named, description_context, entity_descriptions, json_text, key_of,
    llm_verdict, module_description, prompt_text, provider_of, reply_step, ApiKeysModel,
    CachedResultModel, LlmCheckMode, LlmConfigModel, LlmProvider, ReplyStepModel, ReplyTextsModel,
};
use super::orchestrate::{
    answer_step, first_step, look_up_step, BehavioralSummaryModel, InvariantStepModel,
};
use super::{
    all_invariants, classified, clause_invariants, entities_invariants, entity_invariants,
    has_unsafe, line_has_unsafe, literals_stripped, module_invariants, scan_begun, scan_braces,
    scan_line, static_check, tier_of, unsafe_at, without_literals, working_code, working_lines,
    ClassifiedInvariantModel, InvariantResultModel, InvariantTier, TestScan,
};
use crate::spec::ModuleSpecModel;
use crate::text;

verus! {

// ─── Invariants ───────────────────────────────────────────────────────────────

/// Whether a spec states an invariant: of its module, or as a clause of an entity that is no
/// type.
pub open spec fn is_stated(spec: ModuleSpecModel, s: Seq<char>) -> bool {
    ||| exists|i: int| 0 <= i < spec.invariants.len() && #[trigger] spec.invariants[i] == s
    ||| exists|k: int| 0 <= k < spec.exposes.len() && is_clause(spec, k, s)
}

/// Whether a text is what an exposed entity requires or ensures, behind its name.
pub open spec fn is_clause(spec: ModuleSpecModel, k: int, s: Seq<char>) -> bool {
    let entry = spec.exposes[k];
    entry.1.kind != Some("type"@) && ({
        ||| exists|i: int|
            0 <= i < entry.1.requires.len() && s == entry.0 + ": requires "@
                + #[trigger] entry.1.requires[i]
        ||| exists|i: int|
            0 <= i < entry.1.ensures.len() && s == entry.0 + ": ensures "@
                + #[trigger] entry.1.ensures[i]
    })
}

/// Whether a text is among some invariants.
pub open spec fn is_among(invariants: Seq<ClassifiedInvariantModel>, s: Seq<char>) -> bool {
    exists|i: int| 0 <= i < invariants.len() && (#[trigger] invariants[i]).text == s
}

proof fn lemma_among_either(
    a: Seq<ClassifiedInvariantModel>,
    b: Seq<ClassifiedInvariantModel>,
    s: Seq<char>,
)
    ensures
        is_among(a + b, s) <==> is_among(a, s) || is_among(b, s),
{
    let all = a + b;
    if is_among(a, s) {
        let i = choose|i: int| 0 <= i < a.len() && (#[trigger] a[i]).text == s;
        assert(all[i] == a[i]);
    }
    if is_among(b, s) {
        let i = choose|i: int| 0 <= i < b.len() && (#[trigger] b[i]).text == s;
        assert(all[a.len() + i] == b[i]);
    }
    if is_among(all, s) {
        let i = choose|i: int| 0 <= i < all.len() && (#[trigger] all[i]).text == s;
        if i < a.len() {
            assert(a[i] == all[i]);
        } else {
            assert(b[i - a.len()] == all[i]);
        }
    }
}

proof fn lemma_clauses(
    spec: ModuleSpecModel,
    name: Seq<char>,
    word: Seq<char>,
    clauses: Seq<Seq<char>>,
    s: Seq<char>,
)
    ensures
        is_among(clause_invariants(spec, name, word, clauses), s) <==> exists|i: int|
            0 <= i < clauses.len() && s == name + word + #[trigger] clauses[i],
{
    let all = clause_invariants(spec, name, word, clauses);
    if exists|i: int| 0 <= i < clauses.len() && s == name + word + #[trigger] clauses[i] {
        let i = choose|i: int| 0 <= i < clauses.len() && s == name + word + #[trigger] clauses[i];
        assert(all[i].text == s);
    }
    if is_among(all, s) {
        let i = choose|i: int| 0 <= i < all.len() && (#[trigger] all[i]).text == s;
        assert(s == name + word + clauses[i]);
    }
}

proof fn lemma_entities(spec: ModuleSpecModel, k: int, s: Seq<char>)
    requires
        0 <= k <= spec.exposes.len(),
    ensures
        is_among(entities_invariants(spec, k), s) <==> exists|j: int|
            0 <= j < k && is_clause(spec, j, s),
    decreases k,
{
    if k > 0 {
        lemma_entities(spec, k - 1, s);
        let entry = spec.exposes[k - 1];
        let before = entities_invariants(spec, k - 1);
        let own = entity_invariants(spec, entry);
        lemma_among_either(before, own, s);
        let a = clause_invariants(spec, entry.0, ": requires "@, entry.1.requires);
        let b = clause_invariants(spec, entry.0, ": ensures "@, entry.1.ensures);
        lemma_clauses(spec, entry.0, ": requires "@, entry.1.requires, s);
        lemma_clauses(spec, entry.0, ": ensures "@, entry.1.ensures, s);
        lemma_among_either(a, b, s);
        assert(is_among(own, s) <==> is_clause(spec, k - 1, s));
        if exists|j: int| 0 <= j < k && is_clause(spec, j, s) {
            let j = choose|j: int| 0 <= j < k && is_clause(spec, j, s);
            if j < k - 1 {
                assert(is_clause(spec, j, s));
            }
        }
        if exists|j: int| 0 <= j < k - 1 && is_clause(spec, j, s) {
            let j = choose|j: int| 0 <= j < k - 1 && is_clause(spec, j, s);
            assert(is_clause(spec, j, s));
        }
    }
}

/// The invariants that are checked are those that the spec states, and no others.
pub proof fn stated_invariants_are_checked(spec: ModuleSpecModel, s: Seq<char>)
    ensures
        is_among(all_invariants(spec), s) <==> is_stated(spec, s),
{
    let own = module_invariants(spec);
    let others = entities_invariants(spec, spec.exposes.len() as int);
    lemma_entities(spec, spec.exposes.len() as int, s);
    lemma_among_either(own, others, s);
    if exists|i: int| 0 <= i < spec.invariants.len() && #[trigger] spec.invariants[i] == s {
        let i = choose|i: int| 0 <= i < spec.invariants.len() && #[trigger] spec.invariants[i] == s;
        assert(own[i].text == s);
    }
    if is_among(own, s) {
        let i = choose|i: int| 0 <= i < own.len() && (#[trigger] own[i]).text == s;
        assert(spec.invariants[i] == s);
    }
}

/// Each invariant is checked for its own module, in the way that its text asks for.
pub proof fn invariants_know_their_module(spec: ModuleSpecModel, s: Seq<char>)
    ensures
        classified(spec, s).text == s,
        classified(spec, s).module_name == spec.module,
        classified(spec, s).source_path == spec.source_path,
        classified(spec, s).tier == tier_of(s),
{
}

/// The phrases of invariants that patterns in the code can decide, or that say how a function
/// fails.
pub open spec fn phrases() -> Seq<Seq<char>> {
    seq![
        "never panics"@,
        "no panic"@,
        "no unwrap"@,
        "never unwrap"@,
        "no unsafe"@,
        "never unsafe"@,
        "returns result"@,
        "returns error"@,
    ]
}

/// An invariant of a module is decided by patterns exactly where it holds one of the phrases,
/// however its letters are cased; a clause of a function never is.
pub proof fn phrases_decide_how_invariants_are_checked(s: Seq<char>)
    ensures
        tier_of(s) == InvariantTier::Static <==> {
            &&& !text::contains(s, ": requires "@)
            &&& !text::contains(s, ": ensures "@)
            &&& exists|i: int|
                0 <= i < phrases().len() && text::contains(
                    text::lowercase(s),
                    #[trigger] phrases()[i],
                )
        },
{
    let lower = text::lowercase(s);
    let all = phrases();
    assert(all[0] == "never panics"@ && all[1] == "no panic"@ && all[2] == "no unwrap"@);
    assert(all[3] == "never unwrap"@ && all[4] == "no unsafe"@ && all[5] == "never unsafe"@);
    assert(all[6] == "returns result"@ && all[7] == "returns error"@);
    if exists|i: int| 0 <= i < all.len() && text::contains(lower, #[trigger] all[i]) {
        let i = choose|i: int| 0 <= i < all.len() && text::contains(lower, #[trigger] all[i]);
        assert(i == 0 || i == 1 || i == 2 || i == 3 || i == 4 || i == 5 || i == 6 || i == 7);
    }
}

// ─── Patterns ─────────────────────────────────────────────────────────────────

/// A claim that forbids panics is decided by the panics, unwraps and expects of the code; one
/// that forbids unwraps by these alone; one that forbids unsafe code by the keyword. The first
/// of these that a claim forbids decides, and other claims are not decided.
pub proof fn patterns_decide_claims(claim: Seq<char>, source: Seq<char>)
    ensures
        ({
            let lower = text::lowercase(claim);
            let code = working_code(source);
            let panics = text::contains(lower, "never panics"@) || text::contains(
                lower,
                "no panic"@,
            );
            let unwraps = text::contains(lower, "no unwrap"@) || text::contains(
                lower,
                "never unwrap"@,
            );
            let unsafes = text::contains(lower, "no unsafe"@) || text::contains(
                lower,
                "never unsafe"@,
            );
            &&& panics ==> (static_check(claim, source) matches Some(r) && r.satisfies == !(
            text::contains(code, "panic!("@) || text::contains(code, ".unwrap()"@)
                || text::contains(code, ".expect("@)))
            &&& !panics && unwraps ==> (static_check(claim, source) matches Some(r) && r.satisfies
                == !text::contains(code, ".unwrap()"@))
            &&& !panics && !unwraps && unsafes ==> (static_check(claim, source) matches Some(r)
                && r.satisfies == !has_unsafe(code))
            &&& !panics && !unwraps && !unsafes ==> static_check(claim, source) is None
        }),
{
}

/// Comments and lines that look for patterns in texts do not count; all other lines do.
pub proof fn lines_that_count(lines: Seq<Seq<char>>, k: int)
    requires
        0 < k <= lines.len(),
    ensures
        ({
            let t = text::trim(lines[k - 1]);
            let before = working_lines(lines, k - 1);
            if text::starts_with(t, "//"@) || text::contains(t, ".contains(\""@) || text::contains(
                t,
                ".contains(&\""@,
            ) || text::contains(t, "lower.contains"@) {
                working_lines(lines, k) == before
            } else {
                working_lines(lines, k) == before + lines[k - 1] + "\n"@
            }
        }),
{
}

/// Of a test module no line is kept, neither the one with its attribute nor the one with its
/// last brace; outside, every line is.
pub proof fn test_modules_are_dropped(scan: TestScan, line: Seq<char>, whole: bool)
    ensures
        ({
            let after = scan_line(scan, line, whole);
            let kept = if whole {
                line
            } else {
                without_literals(text::trim(line))
            };
            let begins = text::contains(text::trim(line), "#[cfg(test)]"@);
            &&& scan.inside || begins ==> after.kept == scan.kept
            &&& !scan.inside && !begins ==> after.kept == scan.kept + kept + "\n"@ && !after.inside
        }),
{
    let t = text::trim(line);
    lemma_braces(scan_begun(scan, t), t, t.len() as int);
}

proof fn lemma_braces(scan: TestScan, s: Seq<char>, k: int)
    ensures
        scan_braces(scan, s, k).kept == scan.kept,
        !scan.inside ==> !scan_braces(scan, s, k).inside,
        scan_braces(scan, s, k).start == scan.start,
    decreases k,
{
    if 0 < k <= s.len() {
        lemma_braces(scan, s, k - 1);
    }
}

/// A test module goes on as long as more braces are open than where it began.
pub proof fn test_modules_end_with_their_braces(scan: TestScan, s: Seq<char>, k: int)
    requires
        0 < k <= s.len(),
        scan_braces(scan, s, k - 1).inside,
    ensures
        ({
            let before = scan_braces(scan, s, k - 1);
            let after = scan_braces(scan, s, k);
            &&& s[k - 1] == '{' ==> after.depth == before.depth + 1 && after.inside
            &&& s[k - 1] == '}' ==> after.depth == before.depth - 1 && (after.inside <==> after.depth
                > scan.start)
            &&& s[k - 1] != '{' && s[k - 1] != '}' ==> after == before
        }),
{
    lemma_braces(scan, s, k - 1);
}

/// Unsafe code is found where the keyword stands in a line by itself, whatever else does.
pub proof fn unsafe_code_is_found(source: Seq<char>, i: int, a: Seq<char>, b: Seq<char>)
    requires
        0 <= i < text::lines(source).len(),
        text::trim(text::lines(source)[i]) == a + "unsafe"@ + b,
        a.len() > 0 ==> !text::is_word(a.last()),
        b.len() > 0 ==> !text::is_word(b[0]),
    ensures
        has_unsafe(source),
{
    reveal_strlit("unsafe");
    let t = a + "unsafe"@ + b;
    let p = a.len() as int;
    assert(t.subrange(p, p + 6) =~= "unsafe"@);
    assert(p > 0 ==> t[p - 1] == a.last());
    assert(p + 6 < t.len() ==> t[p + 6] == b[0]);
    assert(unsafe_at(t, p));
    assert(line_has_unsafe(text::lines(source)[i]));
}

/// Where no line holds the keyword, or only as a part of other words, no unsafe code is found.
pub proof fn code_without_the_keyword_is_safe(source: Seq<char>)
    requires
        forall|i: int, p: int|
            0 <= i < text::lines(source).len() ==> !((#[trigger] text::occurs_at(
                text::trim(#[trigger] text::lines(source)[i]),
                "unsafe"@,
                p,
            )) && (p > 0 ==> !text::is_word(text::trim(text::lines(source)[i])[p - 1])) && (p + 6
                < text::trim(text::lines(source)[i]).len() ==> !text::is_word(
                text::trim(text::lines(source)[i])[p + 6],
            ))),
    ensures
        !has_unsafe(source),
{
    if has_unsafe(source) {
        let i = choose|i: int|
            0 <= i < text::lines(source).len() && line_has_unsafe(
                #[trigger] text::lines(source)[i],
            );
        let t = text::trim(text::lines(source)[i]);
        let p = choose|p: int| #[trigger] unsafe_at(t, p);
        assert(text::occurs_at(t, "unsafe"@, p));
    }
}

proof fn lemma_unquoted(s: Seq<char>, k: int)
    requires
        text::lacks(s, '"'),
        0 <= k <= s.len(),
    ensures
        literals_stripped(s, k) == (s.take(k), false),
    decreases k,
{
    if k > 0 {
        lemma_unquoted(s, k - 1);
        assert(s[k - 1] != '"');
        assert(s.take(k - 1).push(s[k - 1]) =~= s.take(k));
    } else {
        assert(s.take(0) =~= Seq::empty());
    }
}

/// Of string literals only the quote marks count: what stands between them does not, and what
/// stands outside does.
pub proof fn contents_of_literals_do_not_count(a: Seq<char>, b: Seq<char>, c: Seq<char>)
    requires
        text::lacks(a, '"'),
        text::lacks(b, '"'),
        text::lacks(c, '"'),
        a.len() > 0 ==> a.last() != '\\',
        b.len() > 0 ==> b.last() != '\\',
    ensures
        without_literals(a) == a,
        without_literals(a + seq!['"'] + b + seq!['"'] + c) == a + seq!['"', '"'] + c,
{
    lemma_unquoted(a, a.len() as int);
    assert(a.take(a.len() as int) =~= a);
    let s = a + seq!['"'] + b + seq!['"'] + c;
    let n = a.len() as int;
    let m = n + 1 + b.len();
    assert(s.take(n) =~= a);
    lemma_outside(s, a, n);
    assert(s[n] == '"');
    assert(n > 0 ==> s[n - 1] == a.last());
    assert(literals_stripped(s, n + 1) == (a.push('"'), true));
    lemma_inside(s, n + 1, m, a.push('"'));
    assert(s[m] == '"');
    assert(s[m - 1] != '\\') by {
        if b.len() > 0 {
            assert(s[m - 1] == b.last());
        }
    }
    let done = a.push('"').push('"');
    assert(literals_stripped(s, m + 1) == (done, false));
    lemma_behind(s, m + 1, s.len() as int, done);
    assert(done + s.subrange(m + 1, s.len() as int) =~= a + seq!['"', '"'] + c);
}

proof fn lemma_outside(s: Seq<char>, a: Seq<char>, k: int)
    requires
        0 <= k <= a.len() <= s.len(),
        text::lacks(a, '"'),
        s.take(a.len() as int) == a,
    ensures
        literals_stripped(s, k) == (a.take(k), false),
    decreases k,
{
    if k > 0 {
        lemma_outside(s, a, k - 1);
        assert(s.take(a.len() as int)[k - 1] == s[k - 1]);
        assert(a[k - 1] != '"');
        assert(a.take(k - 1).push(a[k - 1]) =~= a.take(k));
    } else {
        assert(a.take(0) =~= Seq::empty());
    }
}

proof fn lemma_inside(s: Seq<char>, from: int, k: int, out: Seq<char>)
    requires
        0 < from <= k <= s.len(),
        literals_stripped(s, from) == (out, true),
        forall|j: int| from <= j < k ==> #[trigger] s[j] != '"',
    ensures
        literals_stripped(s, k) == (out, true),
    decreases k,
{
    if from < k {
        lemma_inside(s, from, k - 1, out);
        assert(s[k - 1] != '"');
    }
}

proof fn lemma_behind(s: Seq<char>, from: int, k: int, out: Seq<char>)
    requires
        0 < from <= k <= s.len(),
        literals_stripped(s, from) == (out, false),
        forall|j: int| from <= j < k ==> #[trigger] s[j] != '"',
    ensures
        literals_stripped(s, k) == (out + s.subrange(from, k), false),
    decreases k,
{
    if from < k {
        lemma_behind(s, from, k - 1, out);
        assert(s[k - 1] != '"');
        assert((out + s.subrange(from, k - 1)).push(s[k - 1]) =~= out + s.subrange(from, k));
    } else {
        assert(out + s.subrange(from, k) =~= out);
    }
}

// ─── Questions ────────────────────────────────────────────────────────────────

proof fn lemma_within(a: Seq<char>, x: Seq<char>, b: Seq<char>)
    ensures
        text::contains(a + x + b, x),
{
    let all = a + x + b;
    let n = a.len() as int;
    assert(all.subrange(n, n + x.len()) =~= x);
    assert(text::occurs_at(all, x, n));
}

/// A prompt holds the code, the claim and the context that it asks about, and ends with a word
/// to local models alone.
pub proof fn prompts_hold_what_they_ask_about(
    code: Seq<char>,
    claim: Seq<char>,
    context: Seq<char>,
    provider: LlmProvider,
)
    ensures
        text::contains(prompt_text(code, claim, context, provider), code),
        text::contains(prompt_text(code, claim, context, provider), claim),
        text::contains(prompt_text(code, claim, context, provider), context),
        prompt_text(code, claim, context, LlmProvider::OpenAICompatible) == prompt_text(
            code,
            claim,
            context,
            LlmProvider::Anthropic,
        ) + " /no_think"@,
{
    let p1 = "You are verifying whether source code satisfies a specification invariant.\n\n## Invariant to verify:\n"@;
    let p2 = "\n```\n\n## Instructions:\nAnalyze the code and determine whether it satisfies the invariant.\nRespond with ONLY a JSON object, no other text:\n{\"satisfies\": true/false, \"reasoning\": \"your explanation in 1-2 sentences\"}"@;
    let section = super::llm::context_section(context);
    let end = super::llm::prompt_end(provider);
    let all = prompt_text(code, claim, context, provider);
    reveal_strlit("");
    assert(all =~= p1 + claim + ("\n"@ + section + "\n## Source code:\n```\n"@ + code + p2 + end));
    lemma_within(p1, claim, "\n"@ + section + "\n## Source code:\n```\n"@ + code + p2 + end);
    assert(all =~= (p1 + claim + "\n"@ + section + "\n## Source code:\n```\n"@) + code + (p2 + end));
    lemma_within(p1 + claim + "\n"@ + section + "\n## Source code:\n```\n"@, code, p2 + end);
    if context.len() > 0 {
        let head = p1 + claim + "\n"@ + "\n## Context:\n"@;
        let tail = "\n"@ + "\n## Source code:\n```\n"@ + code + p2 + end;
        assert(all =~= head + context + tail);
        lemma_within(head, context, tail);
    } else {
        assert(all.subrange(0, 0) =~= context);
        assert(text::occurs_at(all, context, 0));
    }
    let plain = prompt_text(code, claim, context, LlmProvider::Anthropic);
    assert(prompt_text(code, claim, context, LlmProvider::OpenAICompatible) =~= plain
        + " /no_think"@);
}

// ─── Answers ──────────────────────────────────────────────────────────────────

/// A rate-limited request is sent again up to five times, after two seconds at first and twice
/// as long each time; then it fails. Other errors fail at once, and successes are read.
pub proof fn rate_limits_are_retried(attempt: u32, status: u16, status_text: Seq<char>, body: Seq<char>)
    ensures
        ({
            let step = reply_step(attempt, status, status_text, body);
            &&& step is Retry <==> status == 429 && attempt < 5
            &&& step is Read <==> 200 <= status < 300
            &&& step matches ReplyStepModel::Retry { attempt: next, delay_ms } ==> next == attempt + 1
                && (attempt == 0 ==> delay_ms == 2000) && (attempt > 0 ==> (reply_step(
                (attempt - 1) as u32,
                status,
                status_text,
                body,
            ) matches ReplyStepModel::Retry { delay_ms: shorter, .. } && delay_ms == 2 * shorter))
        }),
{
    reveal_with_fuel(backoff, 7);
}

/// An answer is taken from where its provider puts it, and from nowhere else.
pub proof fn answers_come_from_their_provider(texts: ReplyTextsModel)
    ensures
        texts.anthropic matches Some(t) ==> texts.answer(LlmProvider::Anthropic) == Ok::<
            Seq<char>,
            Seq<char>,
        >(t),
        texts.anthropic is None ==> texts.answer(LlmProvider::Anthropic) is Err,
        texts.ollama matches Some(t) ==> texts.answer(LlmProvider::OpenAICompatible) == Ok::<
            Seq<char>,
            Seq<char>,
        >(t),
        texts.ollama is None ==> (texts.openai matches Some(t) ==> texts.answer(
            LlmProvider::OpenAICompatible,
        ) == Ok::<Seq<char>, Seq<char>>(t)),
        texts.ollama is None && texts.openai is None ==> texts.answer(
            LlmProvider::OpenAICompatible,
        ) is Err,
{
}

// ─── Counting ─────────────────────────────────────────────────────────────────

/// What patterns decide is counted as it is decided: what holds as passed, and what does not as
/// failed, with its reason; nothing else changes.
pub proof fn decided_invariants_are_counted(
    summary: BehavioralSummaryModel,
    claim: ClassifiedInvariantModel,
    source: Seq<char>,
    config: LlmConfigModel,
    result: InvariantResultModel,
)
    requires
        summary.has_room(),
        claim.tier == InvariantTier::Static,
        static_check(claim.text, source) == Some(result),
    ensures
        ({
            let after = first_step(summary, claim, source, config).0;
            &&& first_step(summary, claim, source, config).1 is Done
            &&& result.satisfies ==> after == (BehavioralSummaryModel {
                static_passed: (summary.static_passed + 1) as usize,
                ..summary
            }) && after.static_passed == summary.static_passed + 1
            &&& !result.satisfies ==> after == (BehavioralSummaryModel {
                static_failed: (summary.static_failed + 1) as usize,
                failures: summary.failures.push((claim.text, result.reasoning)),
                ..summary
            }) && after.static_failed == summary.static_failed + 1
        }),
{
}

/// What a model decides, now or in an earlier run, is counted as it is decided.
pub proof fn verdicts_are_counted(
    summary: BehavioralSummaryModel,
    spec: ModuleSpecModel,
    claim: Seq<char>,
    source: Seq<char>,
    config: LlmConfigModel,
    cached: CachedResultModel,
    result: InvariantResultModel,
    now: Seq<char>,
)
    requires
        summary.has_room(),
    ensures
        ({
            let found = look_up_step(summary, spec, claim, source, config, Some(cached)).0;
            let told = answer_step(summary, claim, source, config, Ok(result), now).0;
            &&& found.cached == summary.cached + 1
            &&& told.cached == summary.cached
            &&& cached.satisfies ==> found.llm_passed == summary.llm_passed + 1 && found.failures
                == summary.failures
            &&& !cached.satisfies ==> found.llm_failed == summary.llm_failed + 1 && found.failures
                == summary.failures.push((claim, cached.reasoning))
            &&& result.satisfies ==> told.llm_passed == summary.llm_passed + 1 && told.failures
                == summary.failures
            &&& !result.satisfies ==> told.llm_failed == summary.llm_failed + 1 && told.failures
                == summary.failures.push((claim, result.reasoning))
        }),
{
}

/// An invariant that nothing decides is skipped, and no result is kept of a call that failed.
pub proof fn undecided_invariants_are_skipped(
    summary: BehavioralSummaryModel,
    spec: ModuleSpecModel,
    claim: Seq<char>,
    source: Seq<char>,
    config: LlmConfigModel,
    error: Seq<char>,
    now: Seq<char>,
)
    requires
        summary.has_room(),
    ensures
        ({
            let step = look_up_step(summary, spec, claim, source, config, None);
            let failed = answer_step(summary, claim, source, config, Err(error), now);
            &&& step.1 is Done ==> step.0 == (BehavioralSummaryModel {
                skipped: (summary.skipped + 1) as usize,
                ..summary
            })
            &&& step.1 is Ask ==> step.0 == summary
            &&& failed.0 == (BehavioralSummaryModel {
                skipped: (summary.skipped + 1) as usize,
                ..summary
            })
            &&& failed.1.keep is None
        }),
{
}

/// What is asked of a model is whether the code satisfies the invariant, in a prompt that holds
/// both.
pub proof fn questions_hold_code_and_claim(
    summary: BehavioralSummaryModel,
    spec: ModuleSpecModel,
    claim: Seq<char>,
    source: Seq<char>,
    config: LlmConfigModel,
)
    ensures
        look_up_step(summary, spec, claim, source, config, None).1 matches InvariantStepModel::Ask {
            request,
        } ==> text::contains(request.prompt, source) && text::contains(request.prompt, claim)
            && request.model == config.model && request.url == config.url(),
{
    let context = description_context(spec, claim);
    prompts_hold_what_they_ask_about(source, claim, context, config.provider);
}

// ─── Requests ─────────────────────────────────────────────────────────────────

/// Each mode has its words, in any case; no other word names a mode.
pub proof fn words_name_modes(s: Seq<char>)
    ensures
        ({
            let w = text::lowercase(s);
            &&& check_mode_named(s) == Ok::<LlmCheckMode, Seq<char>>(LlmCheckMode::Off) <==> w
                == "off"@
            &&& check_mode_named(s) == Ok::<LlmCheckMode, Seq<char>>(LlmCheckMode::DryRun) <==> (w
                == "dry-run"@ || w == "dryrun"@ || w == "dry_run"@)
            &&& check_mode_named(s) == Ok::<LlmCheckMode, Seq<char>>(LlmCheckMode::CachedOnly)
                <==> (w == "cached-only"@ || w == "cached"@ || w == "cache"@)
            &&& check_mode_named(s) == Ok::<LlmCheckMode, Seq<char>>(LlmCheckMode::Full) <==> w
                == "full"@
        }),
{
    reveal_strlit("off");
    reveal_strlit("dry-run");
    reveal_strlit("dryrun");
    reveal_strlit("dry_run");
    reveal_strlit("cached-only");
    reveal_strlit("cached");
    reveal_strlit("cache");
    reveal_strlit("full");
    assert("off"@.len() == 3 && "dry-run"@.len() == 7 && "dryrun"@.len() == 6);
    assert("cached-only"@.len() == 11 && "cached"@.len() == 6 && "cache"@.len() == 5);
    assert("full"@.len() == 4 && "dry_run"@.len() == 7);
    assert("dry-run"@[3] == '-');
    assert("dry_run"@[3] == '_');
    assert("dryrun"@[0] == 'd');
    assert("cached"@[0] == 'c');
}

/// An endpoint of Anthropic is spoken to in Anthropic's way, with Anthropic's key alone; every
/// other one in the common way, with its own key before more general ones.
pub proof fn endpoints_have_their_provider_and_key(endpoint: Seq<char>, keys: ApiKeysModel)
    ensures
        provider_of(endpoint) == LlmProvider::Anthropic <==> text::contains(
            endpoint,
            "anthropic.com"@,
        ),
        keys.for_provider(LlmProvider::Anthropic) == keys.anthropic,
        keys.openai is Some ==> keys.for_provider(LlmProvider::OpenAICompatible) == keys.openai,
        keys.openai is None && keys.llm is Some ==> keys.for_provider(LlmProvider::OpenAICompatible)
            == keys.llm,
        keys.openai is None && keys.llm is None ==> keys.for_provider(LlmProvider::OpenAICompatible)
            == keys.anthropic,
{
}

/// Requests go to the path that the provider offers below the endpoint, whether it is written
/// with a slash at its end or not.
pub proof fn requests_go_below_their_endpoint(config: LlmConfigModel)
    requires
        config.endpoint.len() > 0,
        config.endpoint.last() != '/',
    ensures
        ({
            let slashed = LlmConfigModel { endpoint: config.endpoint.push('/'), ..config };
            let local = text::contains(config.endpoint, "11434"@);
            let api = text::ends_with(config.endpoint, "/api"@);
            &&& slashed.url() == config.url()
            &&& config.provider == LlmProvider::Anthropic ==> config.url() == config.endpoint
                + "/v1/messages"@
            &&& config.provider == LlmProvider::OpenAICompatible && !local && !api ==> config.url()
                == config.endpoint + "/chat/completions"@
            &&& config.provider == LlmProvider::OpenAICompatible && local && !api
                && !text::ends_with(config.endpoint, "/v1"@) ==> config.url() == config.endpoint
                + "/api/chat"@
        }),
{
    reveal_with_fuel(text::without_last, 2);
    assert(config.endpoint.push('/').drop_last() =~= config.endpoint);
    let base = config.endpoint;
    assert(text::without_last(base, '/') == base);
    assert(text::without_last(base.push('/'), '/') == base);
}

/// A local endpoint that names its API or a version of it is asked at the same place as one
/// that does not.
pub proof fn local_endpoints_are_asked_at_one_place(config: LlmConfigModel, base: Seq<char>)
    requires
        config.provider == LlmProvider::OpenAICompatible,
        text::contains(base, "11434"@),
        !text::ends_with(base, "/api"@),
        !text::ends_with(base, "/v1"@),
        base.len() > 0,
        base.last() != '/',
    ensures
        (LlmConfigModel { endpoint: base, ..config }).url() == base + "/api/chat"@,
        (LlmConfigModel { endpoint: base + "/api"@, ..config }).url() == base + "/api/chat"@,
        (LlmConfigModel { endpoint: base + "/v1"@, ..config }).url() == base + "/api/chat"@,
{
    reveal_strlit("/api");
    reveal_strlit("/v1");
    let a = base + "/api"@;
    let v = base + "/v1"@;
    assert(a.last() == 'i' && v.last() == '1');
    assert(text::without_last(base, '/') == base);
    assert(text::without_last(a, '/') == a);
    assert(text::without_last(v, '/') == v);
    lemma_contains_longer(base, "/api"@, "11434"@);
    lemma_contains_longer(base, "/v1"@, "11434"@);
    assert(a.take(a.len() - 4) =~= base);
    assert(v.take(v.len() - 3) =~= base);
    assert(a.subrange(a.len() - 4, a.len() as int) =~= "/api"@);
    assert(v.subrange(v.len() - 3, v.len() as int) =~= "/v1"@);
    assert(text::ends_with(a, "/api"@));
    assert(text::ends_with(v, "/v1"@));
    assert(!text::ends_with(a, "/v1"@)) by {
        if text::ends_with(a, "/v1"@) {
            assert(a.subrange(a.len() - 3, a.len() as int)[2] == "/v1"@[2]);
        }
    }
    assert(text::without_suffix(base, "/v1"@) == base);
    assert(text::without_suffix(base, "/api"@) == base);
    assert(text::without_suffix(a, "/v1"@) == a);
    assert(text::without_suffix(a, "/api"@) == text::without_suffix(base, "/api"@));
    assert(text::without_suffix(v, "/v1"@) == text::without_suffix(base, "/v1"@));
}

proof fn lemma_contains_longer(a: Seq<char>, b: Seq<char>, x: Seq<char>)
    requires
        text::contains(a, x),
    ensures
        text::contains(a + b, x),
{
    let i = choose|i: int| #[trigger] text::occurs_at(a, x, i);
    assert((a + b).subrange(i, i + x.len()) =~= a.subrange(i, i + x.len()));
    assert(text::occurs_at(a + b, x, i));
}

/// Whether a header is among some headers.
pub open spec fn is_header(
    headers: Seq<(Seq<char>, Seq<char>)>,
    name: Seq<char>,
    value: Seq<char>,
) -> bool {
    exists|i: int| 0 <= i < headers.len() && #[trigger] headers[i] == (name, value)
}

/// Requests carry the key in the way of their provider, the model, the prompt, and the bound
/// that the endpoint understands.
pub proof fn requests_carry_what_is_configured(
    config: LlmConfigModel,
    key: Seq<char>,
    prompt: Seq<char>,
    limit: u32,
)
    requires
        config.api_key == Some(key),
        key.len() > 0,
    ensures
        ({
            let r = config.request(prompt, limit);
            let local = config.provider == LlmProvider::OpenAICompatible && text::contains(
                config.endpoint,
                "11434"@,
            );
            &&& r.prompt == prompt
            &&& r.model == config.model
            &&& is_header(r.headers, "content-type"@, "application/json"@)
            &&& config.provider == LlmProvider::Anthropic ==> is_header(r.headers, "x-api-key"@, key)
            &&& config.provider == LlmProvider::OpenAICompatible ==> is_header(
                r.headers,
                "authorization"@,
                "Bearer "@ + key,
            )
            &&& local ==> r.context_size == Some(config.context_size) && r.max_tokens is None
            &&& !local ==> r.max_tokens == Some(limit) && r.context_size is None
        }),
{
    let r = config.request(prompt, limit);
    if config.provider == LlmProvider::Anthropic {
        assert(r.headers[0] == ("x-api-key"@, key));
        assert(r.headers[2] == ("content-type"@, "application/json"@));
    } else {
        assert(r.headers[0] == ("content-type"@, "application/json"@));
        assert(r.headers[1] == ("authorization"@, "Bearer "@ + key));
    }
}

/// What describes a claim: the module, and the entities that the claim begins with.
pub proof fn descriptions_are_of_what_the_claim_is_about(
    spec: ModuleSpecModel,
    claim: Seq<char>,
    d: Seq<char>,
    k: int,
)
    requires
        0 < k <= spec.exposes.len(),
    ensures
        spec.description == Some(d) ==> module_description(spec) == seq![
            "Module `"@ + spec.module + "`: "@ + d,
        ],
        spec.description is None ==> module_description(spec).len() == 0,
        ({
            let before = entity_descriptions(spec, claim, k - 1);
            let (name, entity) = spec.exposes[k - 1];
            let about = text::starts_with(claim, name + ": "@);
            &&& entity.description == Some(d) && about ==> entity_descriptions(spec, claim, k)
                == before.push("`"@ + name + "`: "@ + d)
            &&& entity.description is None || !about ==> entity_descriptions(spec, claim, k)
                == before
        }),
{
}

/// An answer is read as it stands, whether there are blanks round it or not.
pub proof fn answers_are_read_as_they_stand(answer: Seq<char>)
    requires
        text::trim(answer) == answer,
        !text::starts_with(answer, "```"@),
        !text::ends_with(answer, "/no_think"@),
    ensures
        json_text(answer) == answer,
{
}

/// An answer in the fence of a code block is read as what stands in the fence.
pub proof fn fences_are_taken_off(json: Seq<char>)
    requires
        json.len() > 0,
        !text::is_whitespace(json[0]),
        !text::is_whitespace(json.last()),
    ensures
        json_text("```json\n"@ + json + "\n```"@) == json,
{
    reveal_strlit("```json\n");
    reveal_strlit("```json");
    reveal_strlit("```");
    reveal_strlit("\n```");
    reveal_strlit("/no_think");
    let s = "```json\n"@ + json + "\n```"@;
    let none = Seq::<char>::empty();
    assert(s[0] == '`' && s.last() == '`');
    crate::texts::whitespace_is_trimmed(none, s, none);
    assert(!text::ends_with(s, "/no_think"@)) by {
        if text::ends_with(s, "/no_think"@) {
            let part = s.subrange(s.len() - 9, s.len() as int);
            assert(part[8] == "/no_think"@[8]);
        }
    }
    assert(text::without_suffix(s, "/no_think"@) == s);
    assert(s.subrange(0, 3) =~= "```"@);
    assert(s.subrange(0, 7) =~= "```json"@);
    let inner = s.skip(7);
    assert(inner[0] == '\n');
    assert(!text::starts_with(inner, "```json"@)) by {
        if text::starts_with(inner, "```json"@) {
            assert(inner.subrange(0, 7)[0] == "```json"@[0]);
        }
    }
    assert(!text::starts_with(inner, "```"@)) by {
        if text::starts_with(inner, "```"@) {
            assert(inner.subrange(0, 3)[0] == "```"@[0]);
        }
    }
    assert(text::without_prefix(s, "```json"@) == inner) by {
        assert(text::without_prefix(inner, "```json"@) == inner);
    }
    assert(text::without_prefix(inner, "```"@) == inner);
    let mid = seq!['\n'] + json + seq!['\n'];
    assert(inner =~= mid + "```"@);
    crate::texts::suffixes_are_taken_away(mid, "```"@, ' ');
    assert(!text::ends_with(mid, "```"@)) by {
        if text::ends_with(mid, "```"@) {
            let part = mid.subrange(mid.len() - 3, mid.len() as int);
            assert(part[2] == "```"@[2]);
        }
    }
    crate::texts::suffixes_are_taken_away(mid, "```"@, ' ');
    assert forall|i: int| 0 <= i < seq!['\n'].len() implies text::is_whitespace(
        #[trigger] seq!['\n'][i],
    ) by {}
    crate::texts::whitespace_is_trimmed(seq!['\n'], json, seq!['\n']);
}

/// What a model decides is what it said.
pub proof fn verdicts_are_what_the_model_said(satisfies: bool, reasoning: Seq<char>)
    ensures
        llm_verdict((satisfies, reasoning)).satisfies == satisfies,
        llm_verdict((satisfies, reasoning)).reasoning == reasoning,
{
}

// ─── Steps ────────────────────────────────────────────────────────────────────

/// A model is asked only where there is no kept result, in full mode, and where it can be
/// asked; and nothing is looked up where models are off.
pub proof fn models_are_asked_where_they_have_to_be(
    summary: BehavioralSummaryModel,
    spec: ModuleSpecModel,
    claim: ClassifiedInvariantModel,
    source: Seq<char>,
    config: LlmConfigModel,
    cached: Option<CachedResultModel>,
)
    ensures
        first_step(summary, claim, source, config).1 is LookUp <==> config.check_mode
            != LlmCheckMode::Off && !(claim.tier == InvariantTier::Static && static_check(
            claim.text,
            source,
        ) is Some),
        look_up_step(summary, spec, claim.text, source, config, cached).1 is Ask <==> {
            &&& cached is None
            &&& config.check_mode == LlmCheckMode::Full
            &&& config.api_key is Some || config.provider == LlmProvider::OpenAICompatible
        },
{
}

/// What a model says is kept under the key of the code and the claim, with its model and time.
/// Only local models are given time to cool down.
pub proof fn answers_are_kept(
    summary: BehavioralSummaryModel,
    claim: Seq<char>,
    source: Seq<char>,
    config: LlmConfigModel,
    result: InvariantResultModel,
    now: Seq<char>,
)
    ensures
        ({
            let after = answer_step(summary, claim, source, config, Ok(result), now).1;
            let local = text::contains(config.endpoint, "11434"@);
            &&& after.keep matches Some(kept) && kept.satisfies == result.satisfies
                && kept.reasoning == result.reasoning && kept.model == config.model
                && kept.timestamp == now && kept.code_hash == key_of(source, claim)
            &&& after.cooldown_secs == (if local {
                config.cooldown_secs
            } else {
                0
            })
        }),
{
}

} // verus!

//! What reports say of a spec and its source, and what they come to.
use vstd::prelude::*;

use super::check::{
    behavior_report, count_findings, stale_warning, TallyModel, Verdict,
};
use super::diff::{
    any_contains, difference, extra_lines, import_lines, name_lines, optional_section,
    protocol_lines, DiffLineModel, Mark,
};
use super::init::{
    extensions_for, file_language, has_interface, known_enrichments, known_names, language_of,
};
use super::order::{last_of_module, last_with_path, resolved_dep};
use super::skills::{is_chosen, SkillModel};
use crate::ai_init::SpecEnrichmentModel;
use crate::behavioral::llm::{provider_of, ApiKeysModel, LlmCheckMode};
use crate::behavioral::orchestrate::BehavioralSummaryModel;
use crate::checker::{contains_any, ConstraintResultModel, ConstraintSeverity};
use crate::config::{
    chosen_provider, least_key, llm_config, LlmFileConfigModel, LlmOverridesModel,
    ProviderFileConfigModel,
};
use crate::data::{has_key, keys, lookup};
use crate::extractors::ExtractedModuleModel;
use crate::hash::{full_hash, hex, short_hash};
use crate::spec::ModuleSpecModel;
use crate::text;
use crate::texts::texts_are_ordered_by_characters;

verus! {

// ─── Counting ─────────────────────────────────────────────────────────────────

proof fn lemma_filtered(findings: Seq<ConstraintResultModel>, severity: ConstraintSeverity, k: int)
    requires
        0 <= k <= findings.len(),
    ensures
        count_findings(findings, severity, k) == findings.take(k).filter(
            |f: ConstraintResultModel| f.severity == severity,
        ).len(),
    decreases k,
{
    reveal(Seq::filter);
    if k > 0 {
        lemma_filtered(findings, severity, k - 1);
        assert(findings.take(k).drop_last() =~= findings.take(k - 1));
    }
}

/// Each error counts as an error, and each warning as a warning; a spec without findings
/// passes, and any other does not.
pub proof fn findings_count_by_their_severity(
    tally: TallyModel,
    findings: Seq<ConstraintResultModel>,
)
    requires
        tally.has_room(findings.len() + 1),
    ensures
        ({
            let after = tally.with_result(findings);
            let errors = findings.filter(
                |f: ConstraintResultModel| f.severity == ConstraintSeverity::Error,
            );
            let warnings = findings.filter(
                |f: ConstraintResultModel| f.severity == ConstraintSeverity::Warning,
            );
            &&& after.errors == tally.errors + errors.len()
            &&& after.warnings == tally.warnings + warnings.len()
            &&& after.passed == tally.passed + (if findings.len() == 0 {
                1int
            } else {
                0int
            })
        }),
{
    reveal(Seq::filter);
    let n = findings.len() as int;
    assert(findings.take(n) =~= findings);
    lemma_filtered(findings, ConstraintSeverity::Error, n);
    lemma_filtered(findings, ConstraintSeverity::Warning, n);
    super::check::findings_are_counted_once(tally, findings);
}

/// Failed invariants count as errors, whatever decided them; others do not count.
pub proof fn failed_invariants_are_errors(tally: TallyModel, summary: BehavioralSummaryModel)
    requires
        tally.errors + summary.static_failed + summary.llm_failed <= usize::MAX,
    ensures
        tally.with_behavior(summary).errors == tally.errors + summary.static_failed
            + summary.llm_failed,
        tally.with_behavior(summary).passed == tally.passed,
        tally.with_behavior(summary).warnings == tally.warnings,
{
}

/// Checking fails where there are errors, warns where there are only warnings, and passes where
/// there is neither.
pub proof fn verdicts_follow_the_counts(tally: TallyModel)
    ensures
        tally.verdict() == Verdict::Failed <==> tally.errors != 0,
        tally.verdict() == Verdict::Warned <==> tally.errors == 0 && tally.warnings != 0,
        tally.verdict() == Verdict::Passed <==> tally.errors == 0 && tally.warnings == 0,
{
}

/// A spec with a hash is stale exactly where its source has another; that is a warning. One
/// without a hash never is.
pub proof fn stale_specs_are_warned_of(spec: ModuleSpecModel, content: Seq<u8>)
    ensures
        stale_warning(spec, content) is Some <==> spec.source_hash is Some && spec.source_hash
            != Some(short_hash(content)),
        stale_warning(spec, content) matches Some(w) ==> w.severity == ConstraintSeverity::Warning,
{
}

/// Counts of two summaries add up, and the failures of both are listed.
pub proof fn summaries_add_up(a: BehavioralSummaryModel, b: BehavioralSummaryModel)
    requires
        a.wf(),
        b.wf(),
        a.total() + b.total() <= usize::MAX,
    ensures
        ({
            let all = a.with_summary(b);
            &&& all.total() == a.total() + b.total()
            &&& all.static_passed == a.static_passed + b.static_passed
            &&& all.static_failed == a.static_failed + b.static_failed
            &&& all.llm_passed == a.llm_passed + b.llm_passed
            &&& all.llm_failed == a.llm_failed + b.llm_failed
            &&& all.cached == a.cached + b.cached
            &&& all.skipped == a.skipped + b.skipped
            &&& all.failures == a.failures + b.failures
        }),
{
}

// ─── Differences ──────────────────────────────────────────────────────────────

/// Whether a report says something, with a mark.
pub open spec fn is_said(lines: Seq<DiffLineModel>, mark: Mark, text: Seq<char>) -> bool {
    exists|i: int|
        0 <= i < lines.len() && (#[trigger] lines[i]).mark == mark && lines[i].text == text
}

proof fn lemma_said_left(a: Seq<DiffLineModel>, b: Seq<DiffLineModel>, mark: Mark, t: Seq<char>)
    requires
        is_said(a, mark, t),
    ensures
        is_said(a + b, mark, t),
{
    let i = choose|i: int| 0 <= i < a.len() && (#[trigger] a[i]).mark == mark && a[i].text == t;
    assert((a + b)[i] == a[i]);
}

proof fn lemma_said_right(a: Seq<DiffLineModel>, b: Seq<DiffLineModel>, mark: Mark, t: Seq<char>)
    requires
        is_said(b, mark, t),
    ensures
        is_said(a + b, mark, t),
{
    let i = choose|i: int| 0 <= i < b.len() && (#[trigger] b[i]).mark == mark && b[i].text == t;
    assert((a + b)[a.len() + i] == b[i]);
}

proof fn lemma_extra(implemented: Seq<Seq<char>>, specified: Seq<Seq<char>>, k: int, i: int)
    requires
        0 <= i < k <= implemented.len(),
        !specified.contains(implemented[i]),
    ensures
        is_said(
            extra_lines(implemented, specified, k),
            Mark::Unknown,
            implemented[i] + " (impl only - NOT IN SPEC)"@,
        ),
    decreases k,
{
    let t = implemented[i] + " (impl only - NOT IN SPEC)"@;
    let before = extra_lines(implemented, specified, k - 1);
    let now = extra_lines(implemented, specified, k);
    if i < k - 1 {
        lemma_extra(implemented, specified, k - 1, i);
        let j = choose|j: int|
            0 <= j < before.len() && (#[trigger] before[j]).mark == Mark::Unknown && before[j].text
                == t;
        assert(now[j] == before[j]);
    } else {
        assert(now[before.len() as int].text == t);
    }
}

proof fn lemma_names(specified: Seq<Seq<char>>, implemented: Seq<Seq<char>>, i: int)
    ensures
        0 <= i < specified.len() && implemented.contains(specified[i]) ==> is_said(
            name_lines(specified, implemented),
            Mark::Good,
            specified[i] + " (spec + impl)"@,
        ),
        0 <= i < specified.len() && !implemented.contains(specified[i]) ==> is_said(
            name_lines(specified, implemented),
            Mark::Bad,
            specified[i] + " (spec only - MISSING)"@,
        ),
        0 <= i < implemented.len() && !specified.contains(implemented[i]) ==> is_said(
            name_lines(specified, implemented),
            Mark::Unknown,
            implemented[i] + " (impl only - NOT IN SPEC)"@,
        ),
{
    let lines = name_lines(specified, implemented);
    if 0 <= i < specified.len() {
        if implemented.contains(specified[i]) {
            assert(lines[i].text == specified[i] + " (spec + impl)"@);
        } else {
            assert(lines[i].text == specified[i] + " (spec only - MISSING)"@);
        }
    }
    if 0 <= i < implemented.len() && !specified.contains(implemented[i]) {
        let n = implemented.len() as int;
        lemma_extra(implemented, specified, n, i);
        let first = lines.take(specified.len() as int);
        let extra = extra_lines(implemented, specified, n);
        assert(lines =~= first + extra);
        lemma_said_right(
            first,
            extra,
            Mark::Unknown,
            implemented[i] + " (impl only - NOT IN SPEC)"@,
        );
    }
}

/// The parts of a report.
proof fn lemma_parts(
    spec: ModuleSpecModel,
    m: ExtractedModuleModel,
    part: Seq<DiffLineModel>,
    mark: Mark,
    t: Seq<char>,
)
    requires
        is_said(part, mark, t),
        part == name_lines(keys(spec.exposes), m.public_functions) || part
            == super::diff::dependency_lines(spec, m.imports) || part == optional_section(
            "State Variables:"@,
            spec.owns_state,
            m.state_variables,
        ) || part == optional_section("Events:"@, spec.emits, m.events) || (spec.protocol matches
            Some(p) && part == protocol_lines(p, m)),
    ensures
        is_said(difference(spec, m), mark, t),
{
    let a = seq![super::diff::line(Mark::Title, 0, "Exposed Functions:"@)];
    let b = name_lines(keys(spec.exposes), m.public_functions);
    let c = seq![super::diff::blank(), super::diff::line(Mark::Title, 0, "Dependencies:"@)];
    let d = super::diff::dependency_lines(spec, m.imports);
    let e = optional_section("State Variables:"@, spec.owns_state, m.state_variables);
    let f = optional_section("Events:"@, spec.emits, m.events);
    let g = match spec.protocol {
        Some(p) => seq![super::diff::blank(), super::diff::line(Mark::Title, 0, "Protocol:"@)]
            + protocol_lines(p, m),
        None => Seq::empty(),
    };
    let all = difference(spec, m);
    assert(all == a + b + c + d + e + f + g);
    if part == b {
        lemma_said_right(a, b, mark, t);
        lemma_said_left(a + b, c, mark, t);
        lemma_said_left(a + b + c, d, mark, t);
        lemma_said_left(a + b + c + d, e, mark, t);
        lemma_said_left(a + b + c + d + e, f, mark, t);
        lemma_said_left(a + b + c + d + e + f, g, mark, t);
    } else if part == d {
        lemma_said_right(a + b + c, d, mark, t);
        lemma_said_left(a + b + c + d, e, mark, t);
        lemma_said_left(a + b + c + d + e, f, mark, t);
        lemma_said_left(a + b + c + d + e + f, g, mark, t);
    } else if part == e {
        lemma_said_right(a + b + c + d, e, mark, t);
        lemma_said_left(a + b + c + d + e, f, mark, t);
        lemma_said_left(a + b + c + d + e + f, g, mark, t);
    } else if part == f {
        lemma_said_right(a + b + c + d + e, f, mark, t);
        lemma_said_left(a + b + c + d + e + f, g, mark, t);
    } else {
        let p = spec.protocol->0;
        let title = seq![super::diff::blank(), super::diff::line(Mark::Title, 0, "Protocol:"@)];
        lemma_said_right(title, protocol_lines(p, m), mark, t);
        lemma_said_right(a + b + c + d + e + f, g, mark, t);
    }
}

/// Of each name that a spec exposes it is said whether the source has it, and of each public
/// function that the spec does not expose that it does not.
pub proof fn names_are_compared(spec: ModuleSpecModel, m: ExtractedModuleModel, i: int)
    ensures
        ({
            let specified = keys(spec.exposes);
            let implemented = m.public_functions;
            let all = difference(spec, m);
            &&& 0 <= i < specified.len() && implemented.contains(specified[i]) ==> is_said(
                all,
                Mark::Good,
                specified[i] + " (spec + impl)"@,
            )
            &&& 0 <= i < specified.len() && !implemented.contains(specified[i]) ==> is_said(
                all,
                Mark::Bad,
                specified[i] + " (spec only - MISSING)"@,
            )
            &&& 0 <= i < implemented.len() && !specified.contains(implemented[i]) ==> is_said(
                all,
                Mark::Unknown,
                implemented[i] + " (impl only - NOT IN SPEC)"@,
            )
        }),
{
    let specified = keys(spec.exposes);
    let implemented = m.public_functions;
    let part = name_lines(specified, implemented);
    lemma_names(specified, implemented, i);
    if 0 <= i < specified.len() && implemented.contains(specified[i]) {
        lemma_parts(spec, m, part, Mark::Good, specified[i] + " (spec + impl)"@);
    }
    if 0 <= i < specified.len() && !implemented.contains(specified[i]) {
        lemma_parts(spec, m, part, Mark::Bad, specified[i] + " (spec only - MISSING)"@);
    }
    if 0 <= i < implemented.len() && !specified.contains(implemented[i]) {
        lemma_parts(spec, m, part, Mark::Unknown, implemented[i] + " (impl only - NOT IN SPEC)"@);
    }
}

/// State variables and events are compared as names are.
pub proof fn state_and_events_are_compared(spec: ModuleSpecModel, m: ExtractedModuleModel, i: int)
    ensures
        ({
            let all = difference(spec, m);
            &&& 0 <= i < spec.owns_state.len() && m.state_variables.contains(spec.owns_state[i])
                ==> is_said(all, Mark::Good, spec.owns_state[i] + " (spec + impl)"@)
            &&& 0 <= i < spec.owns_state.len() && !m.state_variables.contains(spec.owns_state[i])
                ==> is_said(all, Mark::Bad, spec.owns_state[i] + " (spec only - MISSING)"@)
            &&& 0 <= i < m.state_variables.len() && !spec.owns_state.contains(m.state_variables[i])
                ==> is_said(all, Mark::Unknown, m.state_variables[i] + " (impl only - NOT IN SPEC)"@)
            &&& 0 <= i < spec.emits.len() && m.events.contains(spec.emits[i]) ==> is_said(
                all,
                Mark::Good,
                spec.emits[i] + " (spec + impl)"@,
            )
            &&& 0 <= i < spec.emits.len() && !m.events.contains(spec.emits[i]) ==> is_said(
                all,
                Mark::Bad,
                spec.emits[i] + " (spec only - MISSING)"@,
            )
            &&& 0 <= i < m.events.len() && !spec.emits.contains(m.events[i]) ==> is_said(
                all,
                Mark::Unknown,
                m.events[i] + " (impl only - NOT IN SPEC)"@,
            )
        }),
{
    lemma_section(spec, m, "State Variables:"@, spec.owns_state, m.state_variables, i);
    lemma_section(spec, m, "Events:"@, spec.emits, m.events, i);
}

proof fn lemma_section(
    spec: ModuleSpecModel,
    m: ExtractedModuleModel,
    title: Seq<char>,
    specified: Seq<Seq<char>>,
    implemented: Seq<Seq<char>>,
    i: int,
)
    requires
        (title == "State Variables:"@ && specified == spec.owns_state && implemented
            == m.state_variables) || (title == "Events:"@ && specified == spec.emits
            && implemented == m.events),
    ensures
        0 <= i < specified.len() && implemented.contains(specified[i]) ==> is_said(
            difference(spec, m),
            Mark::Good,
            specified[i] + " (spec + impl)"@,
        ),
        0 <= i < specified.len() && !implemented.contains(specified[i]) ==> is_said(
            difference(spec, m),
            Mark::Bad,
            specified[i] + " (spec only - MISSING)"@,
        ),
        0 <= i < implemented.len() && !specified.contains(implemented[i]) ==> is_said(
            difference(spec, m),
            Mark::Unknown,
            implemented[i] + " (impl only - NOT IN SPEC)"@,
        ),
{
    let part = optional_section(title, specified, implemented);
    let head = seq![super::diff::blank(), super::diff::line(Mark::Title, 0, title)];
    let lines = name_lines(specified, implemented);
    lemma_names(specified, implemented, i);
    if 0 <= i < specified.len() && implemented.contains(specified[i]) {
        lemma_said_right(head, lines, Mark::Good, specified[i] + " (spec + impl)"@);
        lemma_parts(spec, m, part, Mark::Good, specified[i] + " (spec + impl)"@);
    }
    if 0 <= i < specified.len() && !implemented.contains(specified[i]) {
        lemma_said_right(head, lines, Mark::Bad, specified[i] + " (spec only - MISSING)"@);
        lemma_parts(spec, m, part, Mark::Bad, specified[i] + " (spec only - MISSING)"@);
    }
    if 0 <= i < implemented.len() && !specified.contains(implemented[i]) {
        let t = implemented[i] + " (impl only - NOT IN SPEC)"@;
        lemma_said_right(head, lines, Mark::Unknown, t);
        lemma_parts(spec, m, part, Mark::Unknown, t);
    }
}

proof fn lemma_import(spec: ModuleSpecModel, imports: Seq<Seq<char>>, k: int, i: int)
    requires
        0 <= i < k <= imports.len(),
    ensures
        contains_any(imports[i], spec.forbidden_deps) ==> is_said(
            import_lines(spec, imports, k),
            Mark::Bad,
            imports[i] + " (FORBIDDEN)"@,
        ),
        !contains_any(imports[i], spec.forbidden_deps) && !contains_any(imports[i], spec.depends_on)
            ==> is_said(
            import_lines(spec, imports, k),
            Mark::Unknown,
            imports[i] + " (not in spec)"@,
        ),
    decreases k,
{
    let before = import_lines(spec, imports, k - 1);
    let now = import_lines(spec, imports, k);
    if i < k - 1 {
        lemma_import(spec, imports, k - 1, i);
        let rest = now.skip(before.len() as int);
        assert(now =~= before + rest);
        if contains_any(imports[i], spec.forbidden_deps) {
            lemma_said_left(before, rest, Mark::Bad, imports[i] + " (FORBIDDEN)"@);
        } else if !contains_any(imports[i], spec.depends_on) {
            lemma_said_left(before, rest, Mark::Unknown, imports[i] + " (not in spec)"@);
        }
    } else if contains_any(imports[i], spec.forbidden_deps) {
        assert(now[before.len() as int].text == imports[i] + " (FORBIDDEN)"@);
    } else if !contains_any(imports[i], spec.depends_on) {
        assert(now[before.len() as int].text == imports[i] + " (not in spec)"@);
    }
}

/// Of each dependency that is allowed it is said whether an import uses it; an import that holds
/// a forbidden name is said to be forbidden, and one that holds no allowed name not to be in the
/// spec.
pub proof fn dependencies_are_compared(spec: ModuleSpecModel, m: ExtractedModuleModel, i: int)
    ensures
        ({
            let all = difference(spec, m);
            &&& 0 <= i < spec.depends_on.len() && (exists|j: int|
                0 <= j < m.imports.len() && text::contains(
                    #[trigger] m.imports[j],
                    spec.depends_on[i],
                )) ==> is_said(all, Mark::Good, spec.depends_on[i] + " (allowed + used)"@)
            &&& 0 <= i < spec.depends_on.len() && (forall|j: int|
                0 <= j < m.imports.len() ==> !text::contains(
                    #[trigger] m.imports[j],
                    spec.depends_on[i],
                )) ==> is_said(all, Mark::Unused, spec.depends_on[i] + " (allowed, not used)"@)
            &&& 0 <= i < m.imports.len() && contains_any(m.imports[i], spec.forbidden_deps)
                ==> is_said(all, Mark::Bad, m.imports[i] + " (FORBIDDEN)"@)
            &&& 0 <= i < m.imports.len() && !contains_any(m.imports[i], spec.forbidden_deps)
                && !contains_any(m.imports[i], spec.depends_on) ==> is_said(
                all,
                Mark::Unknown,
                m.imports[i] + " (not in spec)"@,
            )
        }),
{
    let part = super::diff::dependency_lines(spec, m.imports);
    let n = m.imports.len() as int;
    let rest = import_lines(spec, m.imports, n);
    let first = part.take(spec.depends_on.len() as int);
    assert(part =~= first + rest);
    if 0 <= i < spec.depends_on.len() {
        let dep = spec.depends_on[i];
        if any_contains(m.imports, dep) {
            assert(part[i].text == dep + " (allowed + used)"@);
            assert(is_said(part, Mark::Good, dep + " (allowed + used)"@));
            lemma_parts(spec, m, part, Mark::Good, dep + " (allowed + used)"@);
        } else {
            assert(part[i].text == dep + " (allowed, not used)"@);
            assert(is_said(part, Mark::Unused, dep + " (allowed, not used)"@));
            lemma_parts(spec, m, part, Mark::Unused, dep + " (allowed, not used)"@);
        }
    }
    if 0 <= i < n {
        lemma_import(spec, m.imports, n, i);
        if contains_any(m.imports[i], spec.forbidden_deps) {
            lemma_said_right(first, rest, Mark::Bad, m.imports[i] + " (FORBIDDEN)"@);
            lemma_parts(spec, m, part, Mark::Bad, m.imports[i] + " (FORBIDDEN)"@);
        } else if !contains_any(m.imports[i], spec.depends_on) {
            lemma_said_right(first, rest, Mark::Unknown, m.imports[i] + " (not in spec)"@);
            lemma_parts(spec, m, part, Mark::Unknown, m.imports[i] + " (not in spec)"@);
        }
    }
}

/// Of each transition of a protocol it is said whether the function that it calls exists.
pub proof fn transitions_are_compared(spec: ModuleSpecModel, m: ExtractedModuleModel, i: int)
    requires
        spec.protocol is Some,
        0 <= i < spec.protocol->0.transitions.len(),
    ensures
        ({
            let t = spec.protocol->0.transitions[i];
            let exists_there = m.public_functions.contains(t.call) || has_key(
                m.function_info,
                t.call,
            );
            is_said(
                difference(spec, m),
                if exists_there {
                    Mark::Good
                } else {
                    Mark::Bad
                },
                t.from + " -> "@ + t.call + "() -> "@ + t.to,
            )
        }),
{
    let p = spec.protocol->0;
    let t = p.transitions[i];
    let part = protocol_lines(p, m);
    let mark = if m.public_functions.contains(t.call) || has_key(m.function_info, t.call) {
        Mark::Good
    } else {
        Mark::Bad
    };
    let said = t.from + " -> "@ + t.call + "() -> "@ + t.to;
    assert(part[2 + i].text == said && part[2 + i].mark == mark);
    assert(is_said(part, mark, said));
    lemma_parts(spec, m, part, mark, said);
}

// ─── Files ────────────────────────────────────────────────────────────────────

/// Each extension has its language, and looking for a language finds the files of its
/// extension.
pub proof fn extensions_have_their_languages()
    ensures
        language_of("rs"@) == "rust"@,
        language_of("sol"@) == "solidity"@,
        language_of("flow"@) == "flow9"@,
        language_of("ts"@) == "typescript"@,
        language_of("tsx"@) == "typescript"@,
        language_of("js"@) == "javascript"@,
        language_of("jsx"@) == "javascript"@,
        extensions_for(Some(language_of("rs"@))) == Ok::<Seq<Seq<char>>, Seq<char>>(seq!["rs"@]),
        extensions_for(Some(language_of("sol"@))) == Ok::<Seq<Seq<char>>, Seq<char>>(seq!["sol"@]),
        extensions_for(Some(language_of("flow"@))) == Ok::<Seq<Seq<char>>, Seq<char>>(
            seq!["flow"@],
        ),
{
    reveal_strlit("rs");
    reveal_strlit("sol");
    reveal_strlit("flow");
    reveal_strlit("ts");
    reveal_strlit("tsx");
    reveal_strlit("js");
    reveal_strlit("jsx");
    reveal_strlit("rust");
    reveal_strlit("solidity");
    reveal_strlit("flow9");
    assert("rs"@.len() == 2 && "sol"@.len() == 3 && "flow"@.len() == 4 && "ts"@.len() == 2);
    assert("tsx"@.len() == 3 && "js"@.len() == 2 && "jsx"@.len() == 3 && "rust"@.len() == 4);
    assert("solidity"@.len() == 8 && "flow9"@.len() == 5);
    assert("rs"@[0] == 'r' && "ts"@[0] == 't' && "js"@[0] == 'j' && "sol"@[0] == 's');
    assert("tsx"@[0] == 't' && "jsx"@[0] == 'j' && "flow"@[0] == 'f' && "rust"@[0] == 'r');
}

/// An unknown extension names its own language; a language that is given comes before one that
/// was detected.
pub proof fn languages_are_given_or_detected(
    extension: Seq<char>,
    given: Option<Seq<char>>,
    detected: Option<Seq<char>>,
)
    ensures
        language_of(extension) != extension ==> extension == "rs"@ || extension == "sol"@
            || extension == "flow"@ || extension == "ts"@ || extension == "tsx"@ || extension
            == "js"@ || extension == "jsx"@,
        given matches Some(l) ==> file_language(given, detected) == Ok::<Seq<char>, Seq<char>>(l),
        given is None ==> (detected matches Some(l) ==> file_language(given, detected) == Ok::<
            Seq<char>,
            Seq<char>,
        >(l)),
        given is None && detected is None ==> file_language(given, detected) is Err,
{
}

/// What is known of a name that a file refers to belongs to its context, and nothing else does.
pub proof fn context_is_what_is_known(
    names: Seq<Seq<char>>,
    known: Seq<(Seq<char>, SpecEnrichmentModel)>,
    k: int,
)
    requires
        0 < k <= names.len(),
    ensures
        lookup(known, names[k - 1]) matches Some(e) ==> known_enrichments(names, known, k)
            == known_enrichments(names, known, k - 1).push(e) && known_names(names, known, k)
            == known_names(names, known, k - 1).push(names[k - 1]),
        lookup(known, names[k - 1]) is None ==> known_enrichments(names, known, k)
            == known_enrichments(names, known, k - 1) && known_names(names, known, k)
            == known_names(names, known, k - 1),
{
}

/// A skill is installed by its name, with all others, or where nothing is chosen, if it is one
/// for everyone; and by no other word.
pub proof fn skills_are_chosen_by_name(skill: SkillModel, choice: Option<Seq<char>>)
    ensures
        choice == Some(skill.name) ==> is_chosen(skill, choice),
        choice == Some("all"@) ==> is_chosen(skill, choice),
        choice is None ==> is_chosen(skill, choice) == skill.default,
        choice is Some && choice != Some(skill.name) && choice != Some("all"@) ==> !is_chosen(
            skill,
            choice,
        ),
{
}

// ─── Order ────────────────────────────────────────────────────────────────────

proof fn lemma_last(specs: Seq<ModuleSpecModel>, dep: Seq<char>, k: int, i: int)
    requires
        0 <= i < k <= specs.len(),
    ensures
        specs[i].source_path == Some(dep) ==> (last_with_path(specs, dep, k) matches Some(j) && i
            <= j < k && specs[j].source_path == Some(dep)),
        specs[i].module == dep ==> (last_of_module(specs, dep, k) matches Some(j) && i <= j < k
            && specs[j].module == dep),
    decreases k,
{
    if i < k - 1 {
        lemma_last(specs, dep, k - 1, i);
    }
}

proof fn lemma_none(specs: Seq<ModuleSpecModel>, dep: Seq<char>, k: int)
    requires
        0 <= k <= specs.len(),
    ensures
        last_with_path(specs, dep, k) matches Some(j) ==> 0 <= j < k && specs[j].source_path
            == Some(dep),
        last_of_module(specs, dep, k) matches Some(j) ==> 0 <= j < k && specs[j].module == dep,
    decreases k,
{
    if k > 0 {
        lemma_none(specs, dep, k - 1);
    }
}

/// A dependency stands for a spec of that path, if there is one, and else for one of a module
/// of that name; for no other spec.
pub proof fn dependencies_stand_for_specs(specs: Seq<ModuleSpecModel>, dep: Seq<char>, i: int)
    ensures
        resolved_dep(specs, dep) matches Some(j) ==> 0 <= j < specs.len() && (specs[j].source_path
            == Some(dep) || specs[j].module == dep),
        0 <= i < specs.len() && specs[i].source_path == Some(dep) ==> (resolved_dep(specs, dep)
            matches Some(j) && i <= j && specs[j].source_path == Some(dep)),
        0 <= i < specs.len() && specs[i].module == dep ==> resolved_dep(specs, dep) is Some,
{
    let n = specs.len() as int;
    lemma_none(specs, dep, n);
    if 0 <= i < n {
        lemma_last(specs, dep, n, i);
    }
}

// ─── Configuration ────────────────────────────────────────────────────────────

/// Without a word of the command line, what is configured of the chosen provider holds; what
/// is configured nowhere is as it is for everyone.
pub proof fn configuration_holds_otherwise(
    llm: LlmFileConfigModel,
    cli: LlmOverridesModel,
    environment: ApiKeysModel,
    model: Seq<char>,
)
    ensures
        ({
            let config = llm_config(llm, cli, environment, model);
            let p = chosen_provider(llm, cli.provider).0;
            &&& cli.endpoint is None ==> (p.endpoint matches Some(e) ==> config.endpoint == e)
            &&& cli.endpoint is None && p.endpoint is None ==> config.endpoint
                == "https://api.anthropic.com"@
            &&& cli.model is None ==> (p.model matches Some(m) ==> config.model == m)
            &&& cli.model is None && p.model is None ==> config.model == model
            &&& p.cooldown_secs matches Some(n) ==> config.cooldown_secs == n
            &&& p.cooldown_secs is None ==> config.cooldown_secs == 10
            &&& p.context_size matches Some(n) ==> config.context_size == n
            &&& p.context_size is None ==> config.context_size == 8192
            &&& config.provider == provider_of(config.endpoint)
        }),
{
}

/// A word of the configuration file on the mode holds where the command line has none.
pub proof fn configured_modes_hold(
    llm: LlmFileConfigModel,
    cli: LlmOverridesModel,
    environment: ApiKeysModel,
    model: Seq<char>,
    mode: LlmCheckMode,
)
    requires
        cli.check is None,
        llm.check is Some,
        crate::behavioral::llm::check_mode_named(llm.check->0) == Ok::<LlmCheckMode, Seq<char>>(
            mode,
        ),
    ensures
        llm_config(llm, cli, environment, model).check_mode == mode,
{
}

/// The provider is the one that the command line names, or else the one that the file names;
/// without names of providers, the one that is configured.
pub proof fn providers_are_chosen_by_name(llm: LlmFileConfigModel, named: Option<Seq<char>>)
    ensures
        llm.providers.len() == 0 ==> chosen_provider(llm, named).0 == llm.flat,
        llm.providers.len() > 0 ==> (named matches Some(n) ==> (lookup(llm.providers, n) matches
            Some(p) ==> chosen_provider(llm, named).0 == p)),
        llm.providers.len() > 0 && named is None ==> (llm.default matches Some(n) ==> (lookup(
            llm.providers,
            n,
        ) matches Some(p) ==> chosen_provider(llm, named).0 == p)),
{
}

// ─── Hashes ───────────────────────────────────────────────────────────────────

proof fn lemma_digit(n: int)
    requires
        0 <= n < 16,
    ensures
        crate::hash::hex_digit(n) == "0123456789abcdef"@[n],
{
    reveal_strlit("0123456789abcdef");
    assert(n == 0 || n == 1 || n == 2 || n == 3 || n == 4 || n == 5 || n == 6 || n == 7 || n == 8
        || n == 9 || n == 10 || n == 11 || n == 12 || n == 13 || n == 14 || n == 15);
}

/// Each byte is written in two digits, the higher one first.
pub proof fn bytes_are_written_in_two_digits(bytes: Seq<u8>, i: int)
    requires
        0 <= i < bytes.len(),
    ensures
        hex(bytes).len() == 2 * bytes.len(),
        hex(bytes)[2 * i] == "0123456789abcdef"@[bytes[i] as int / 16],
        hex(bytes)[2 * i + 1] == "0123456789abcdef"@[bytes[i] as int % 16],
    decreases bytes.len(),
{
    crate::hash::lemma_hex_len(bytes);
    let before = bytes.drop_last();
    crate::hash::lemma_hex_len(before);
    if i < bytes.len() - 1 {
        bytes_are_written_in_two_digits(before, i);
        assert(before[i] == bytes[i]);
    } else {
        lemma_digit(bytes[i] as int / 16);
        lemma_digit(bytes[i] as int % 16);
    }
}

proof fn lemma_hex_prefix(bytes: Seq<u8>, k: int)
    requires
        0 <= k <= bytes.len(),
    ensures
        hex(bytes.take(k)) == hex(bytes).take(2 * k),
    decreases bytes.len(),
{
    crate::hash::lemma_hex_len(bytes);
    crate::hash::lemma_hex_len(bytes.take(k));
    if k < bytes.len() {
        lemma_hex_prefix(bytes.drop_last(), k);
        crate::hash::lemma_hex_len(bytes.drop_last());
        assert(bytes.drop_last().take(k) =~= bytes.take(k));
        assert(hex(bytes).take(2 * k) =~= hex(bytes.drop_last()).take(2 * k));
    } else {
        assert(bytes.take(k) =~= bytes);
        assert(hex(bytes).take(2 * k) =~= hex(bytes));
    }
}

/// A short hash is how the whole hash begins.
pub proof fn short_hashes_begin_hashes(content: Seq<u8>)
    requires
        crate::hash::sha256_digest(content).len() == 32,
    ensures
        short_hash(content) == full_hash(content).take(16),
{
    lemma_hex_prefix(crate::hash::sha256_digest(content), 8);
}

// ─── Invariants ───────────────────────────────────────────────────────────────

/// A report on invariants lists every failure, with its reason.
pub proof fn failures_are_reported(s: BehavioralSummaryModel, i: int)
    requires
        s.wf(),
        0 <= i < s.failures.len(),
    ensures
        is_said(behavior_report(s), Mark::Arrow, s.failures[i].0 + ": "@ + s.failures[i].1),
{
    let last = s.failures.map_values(
        |f: (Seq<char>, Seq<char>)| super::diff::line(Mark::Arrow, 4, f.0 + ": "@ + f.1),
    );
    let said = s.failures[i].0 + ": "@ + s.failures[i].1;
    assert(last[i].text == said);
    let all = behavior_report(s);
    let first = all.take(all.len() - last.len());
    assert(all =~= first + last);
    lemma_said_right(first, last, Mark::Arrow, said);
}

proof fn lemma_least(entries: Seq<(Seq<char>, ProviderFileConfigModel)>, k: int, j: int)
    requires
        0 < k <= entries.len(),
        0 <= j < k,
    ensures
        0 <= least_key(entries, k) < k,
        !text::precedes(entries[j].0, entries[least_key(entries, k)].0),
    decreases k,
{
    if k > 1 {
        let before = least_key(entries, k - 1);
        lemma_least(entries, k - 1, if j < k - 1 { j } else { 0 });
        let last = entries[k - 1].0;
        let least = entries[before].0;
        texts_are_ordered_by_characters(last, least);
        texts_are_ordered_by_characters(last, last);
        if text::precedes(last, least) && j < k - 1 && text::precedes(entries[j].0, last) {
            lemma_order(entries[j].0, last, least);
        }
    } else {
        texts_are_ordered_by_characters(entries[0].0, entries[0].0);
    }
}

proof fn lemma_order(a: Seq<char>, b: Seq<char>, c: Seq<char>)
    requires
        text::precedes(a, b),
        text::precedes(b, c),
    ensures
        text::precedes(a, c),
    decreases a.len(),
{
    if a.len() > 0 && b.len() > 0 && c.len() > 0 && a[0] == b[0] && b[0] == c[0] {
        lemma_order(a.drop_first(), b.drop_first(), c.drop_first());
    }
}

/// Without a name and without a default, the provider whose name comes first is taken, wherever it
/// stands, and its name is told.
pub proof fn first_providers_are_taken(llm: LlmFileConfigModel, j: int)
    requires
        llm.default is None,
        0 <= j < llm.providers.len(),
    ensures
        exists|k: int|
            0 <= k < llm.providers.len() && chosen_provider(llm, None).0 == (
            #[trigger] llm.providers[k]).1 && chosen_provider(llm, None).1 == Some(
                "Warning: no default provider set, using '"@ + llm.providers[k].0 + "'"@,
            ) && !text::precedes(llm.providers[j].0, llm.providers[k].0),
{
    let n = llm.providers.len() as int;
    lemma_least(llm.providers, n, j);
    let k = least_key(llm.providers, n);
    assert(chosen_provider(llm, None).0 == llm.providers[k].1);
}

/// A module is worth a spec exactly where it has a public function or a type.
pub proof fn modules_with_interfaces_are_kept(m: ExtractedModuleModel)
    ensures
        has_interface(m) <==> m.public_functions.len() > 0 || m.type_definitions.len() > 0,
{
}

} // verus!

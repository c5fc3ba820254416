//! What is said of verdicts, of counts and of failures.
use vstd::prelude::*;

use crate::ai_refine::spec_lines;
use crate::behavioral::llm::{
    cache_file_of, check_mode_named, key_of, llm_verdict, reply_step, unreadable_answer, LlmConfigModel, LlmProvider,
    ReplyStepModel, ReplyTextsModel,
};
use crate::behavioral::orchestrate::{answer_step, no_key_notice, BehavioralSummaryModel};
use crate::behavioral::{
    has_panics, has_unsafe, panics_result, unsafe_result, unwrap_result, working_code,
    InvariantResultModel,
};
use crate::checker::{ConstraintKind, ConstraintSeverity, VerificationTier};
use crate::commands::check::{
    behavior_report, location_text, selected_project, stale_warning, TallyModel,
};
use crate::commands::diff::{
    pair_lines, protocol_lines, quoted_list, transition_line, DiffLineModel, Mark,
};
use crate::commands::init::{closing_text, dependency_note, extensions_for, file_language};
use crate::config::{chosen_provider, LlmFileConfigModel};
use crate::data::{has_key, keys, lookup};
use crate::dependency::{branch, margin, name_conflict, name_mismatch, DependencyGraphModel};
use crate::extractors::ExtractedModuleModel;
use crate::flow9_parser::scan::{byte_offset, lemma_cut_ascii};
use crate::hash::full_hash;
use crate::rules::{module_property, ObstacleModel};
use crate::smt::{ownership_conclusion, output_result, reply_result, SmtResultModel, SolverReply};
use crate::spec::{ModuleSpecModel, ProtocolSpecModel};
use crate::text;
use crate::type_formula::ast::{ParamRefModel, TypeExprModel};
use crate::type_formula::eval::{eval_type, ContextModel};
use crate::types::{type_text, TypeReprModel};

verus! {

// ─── Behavior ─────────────────────────────────────────────────────────────────

/// A verdict on code says what was found in it, or that nothing was, and that no model was asked.
pub proof fn evidence_is_told(source: Seq<char>)
    ensures
        panics_result(source) == if has_panics(working_code(source)) {
            (InvariantResultModel {
                satisfies: false,
                reasoning: "Found panic!(), unwrap(), or expect() outside test code"@,
                tier: "static"@,
            })
        } else {
            InvariantResultModel {
                satisfies: true,
                reasoning: "No panic paths found outside test code"@,
                tier: "static"@,
            }
        },
        unwrap_result(source) == if text::contains(working_code(source), ".unwrap()"@) {
            (InvariantResultModel {
                satisfies: false,
                reasoning: "Found .unwrap() outside test code"@,
                tier: "static"@,
            })
        } else {
            InvariantResultModel {
                satisfies: true,
                reasoning: "No .unwrap() found outside test code"@,
                tier: "static"@,
            }
        },
        unsafe_result(source) == if has_unsafe(working_code(source)) {
            (InvariantResultModel {
                satisfies: false,
                reasoning: "Found unsafe block or function outside test code"@,
                tier: "static"@,
            })
        } else {
            InvariantResultModel {
                satisfies: true,
                reasoning: "No unsafe code found outside test code"@,
                tier: "static"@,
            }
        },
{
}

/// A verdict of a model is the one that it gave, and is marked as one of a model.
pub proof fn verdicts_of_models_are_marked(satisfies: bool, reasoning: Seq<char>)
    ensures
        llm_verdict((satisfies, reasoning)).satisfies == satisfies,
        llm_verdict((satisfies, reasoning)).reasoning == reasoning,
        llm_verdict((satisfies, reasoning)).tier == "llm-verified"@,
{
}

/// A reply that ends an attempt for good says why: that the limit of requests stayed, or which
/// error came; both with what the service sent.
pub proof fn refused_requests_say_why(
    attempt: u32,
    status: u16,
    status_text: Seq<char>,
    body: Seq<char>,
)
    ensures
        status == 429 && attempt >= 5 ==> reply_step(attempt, status, status_text, body)
            == ReplyStepModel::Fail(
            "LLM API rate limited after "@ + text::decimal(5) + " retries: "@ + body,
        ),
        status != 429 && (status < 200 || status >= 300) ==> reply_step(
            attempt,
            status,
            status_text,
            body,
        ) == ReplyStepModel::Fail("LLM API error ("@ + status_text + "): "@ + body),
        200 <= status < 300 ==> reply_step(attempt, status, status_text, body)
            == ReplyStepModel::Read,
{
}

/// An answer in another form than that of its provider is refused.
pub proof fn other_answers_are_refused(reply: ReplyTextsModel, error: Seq<char>, json: Seq<char>)
    ensures
        reply.anthropic is None ==> reply.answer(LlmProvider::Anthropic) == Err::<
            Seq<char>,
            Seq<char>,
        >("Unexpected Anthropic response format"@),
        reply.ollama is None && reply.openai is None ==> reply.answer(
            LlmProvider::OpenAICompatible,
        ) == Err::<Seq<char>, Seq<char>>("Unexpected response format: "@ + reply.whole),
        unreadable_answer(error, json) == "Failed to parse LLM response as JSON: "@ + error
            + ". Raw response: "@ + json,
{
}

/// A word that names no mode is refused, with those that do.
pub proof fn unknown_modes_are_refused(s: Seq<char>)
    requires
        check_mode_named(s) is Err,
    ensures
        check_mode_named(s)->Err_0 == "Unknown LLM check mode: '"@ + s
            + "'. Use: off, dry-run, cached-only, full"@,
{
}

/// Requests to Anthropic carry the key, the version of the interface and the form of what they
/// hold; others carry the form, and the key where there is one.
pub proof fn requests_have_headers(config: LlmConfigModel, key: Seq<char>)
    ensures
        config.provider == LlmProvider::Anthropic && config.api_key == Some(key)
            ==> config.headers().contains(("x-api-key"@, key)) && config.headers().contains(
            ("anthropic-version"@, "2023-06-01"@),
        ) && config.headers().contains(("content-type"@, "application/json"@))
            && config.headers().len() == 3,
        config.provider == LlmProvider::OpenAICompatible && config.api_key == Some(key) && key.len()
            > 0 ==> config.headers().contains(("authorization"@, "Bearer "@ + key))
            && config.headers().contains(("content-type"@, "application/json"@))
            && config.headers().len() == 2,
        config.provider == LlmProvider::OpenAICompatible && config.api_key is None
            ==> config.headers() == seq![("content-type"@, "application/json"@)],
{
    let h = config.headers();
    reveal_strlit("");
    if h.len() > 0 {
        assert(h.contains(h[0]));
    }
    if h.len() > 1 {
        assert(h.contains(h[1]));
    }
    if h.len() > 2 {
        assert(h.contains(h[2]));
    }
}

/// Where a model cannot be asked, or the question fails, that is said of the claim.
pub proof fn unanswered_claims_are_told(
    summary: BehavioralSummaryModel,
    claim: Seq<char>,
    source: Seq<char>,
    config: LlmConfigModel,
    error: Seq<char>,
    now: Seq<char>,
)
    ensures
        no_key_notice(claim) == "  [skip] "@ + claim
            + " — no API key set (ANTHROPIC_API_KEY or config)"@,
        ({
            let after = answer_step(summary, claim, source, config, Err(error), now).1;
            after.keep is None && after.notice == Some(
                "  [error] "@ + claim + " — LLM call failed: "@ + error,
            )
        }),
{
}

// ─── Reports ──────────────────────────────────────────────────────────────────

/// The last line of a report gives the counts where there are errors, or warnings that count, and
/// else says that all specs are valid.
pub proof fn reports_end_with_counts(tally: TallyModel, isolated: bool)
    ensures
        tally.errors > 0 ==> tally.closing(isolated) == text::decimal(tally.passed as nat)
            + " passed, "@ + text::decimal(tally.errors as nat) + " error(s), "@ + text::decimal(
            tally.warnings as nat,
        ) + " warning(s)"@,
        tally.errors == 0 && tally.warnings > 0 && !isolated ==> tally.closing(isolated)
            == text::decimal(tally.passed as nat) + " passed, "@ + text::decimal(
            tally.warnings as nat,
        ) + " warning(s)"@,
        tally.errors == 0 && (tally.warnings == 0 || isolated) ==> tally.closing(isolated)
            == "All "@ + text::decimal(tally.passed as nat) + " specs validated"@,
{
}

/// Whether a report has a line.
pub open spec fn has_line(lines: Seq<DiffLineModel>, mark: Mark, indent: usize, t: Seq<char>) -> bool {
    lines.contains(DiffLineModel { mark, indent, text: t })
}

proof fn lemma_added(a: Seq<DiffLineModel>, b: Seq<DiffLineModel>, x: DiffLineModel)
    ensures
        (a + b).contains(x) <==> a.contains(x) || b.contains(x),
{
    let all = a + b;
    if a.contains(x) {
        let i = choose|i: int| 0 <= i < a.len() && a[i] == x;
        assert(all[i] == x);
    }
    if b.contains(x) {
        let i = choose|i: int| 0 <= i < b.len() && b[i] == x;
        assert(all[a.len() + i] == x);
    }
    if all.contains(x) {
        let i = choose|i: int| 0 <= i < all.len() && all[i] == x;
        if i < a.len() {
            assert(a[i] == x);
        } else {
            assert(b[i - a.len()] == x);
        }
    }
}

proof fn lemma_report_parts(s: BehavioralSummaryModel, x: DiffLineModel)
    requires
        s.total() > 0,
    ensures
        ({
            let a = crate::commands::check::count_line(
                Mark::Good,
                s.static_passed,
                " static invariant(s) satisfied"@,
            );
            let b = crate::commands::check::count_line(
                Mark::Bad,
                s.static_failed,
                " static invariant(s) failed"@,
            );
            let d = crate::commands::check::count_line(
                Mark::Good,
                s.llm_passed,
                " behavioral invariant(s) satisfied (LLM-verified"@
                    + crate::commands::check::cached_note(s.cached) + ")"@,
            );
            let e = crate::commands::check::count_line(
                Mark::Bad,
                s.llm_failed,
                " behavioral invariant(s) failed (LLM-verified)"@,
            );
            let f = crate::commands::check::count_line(
                Mark::Unused,
                s.skipped,
                " invariant(s) skipped"@,
            );
            a.contains(x) || b.contains(x) || d.contains(x) || e.contains(x) || f.contains(x)
                ==> behavior_report(s).contains(x)
        }),
{
    let a = crate::commands::check::count_line(
        Mark::Good,
        s.static_passed,
        " static invariant(s) satisfied"@,
    );
    let b = crate::commands::check::count_line(
        Mark::Bad,
        s.static_failed,
        " static invariant(s) failed"@,
    );
    let d = crate::commands::check::count_line(
        Mark::Good,
        s.llm_passed,
        " behavioral invariant(s) satisfied (LLM-verified"@ + crate::commands::check::cached_note(
            s.cached,
        ) + ")"@,
    );
    let e = crate::commands::check::count_line(
        Mark::Bad,
        s.llm_failed,
        " behavioral invariant(s) failed (LLM-verified)"@,
    );
    let f = crate::commands::check::count_line(Mark::Unused, s.skipped, " invariant(s) skipped"@);
    let all = behavior_report(s);
    let g = all.skip((a + b + d + e + f).len() as int);
    assert(all =~= a + b + d + e + f + g);
    lemma_added(a, b, x);
    lemma_added(a + b, d, x);
    lemma_added(a + b + d, e, x);
    lemma_added(a + b + d + e, f, x);
    lemma_added(a + b + d + e + f, g, x);
}

/// Invariants are reported by their counts: those that hold, those that fail, and those that were
/// left out, each for itself, and how many of them were decided before.
pub proof fn invariants_are_reported(s: BehavioralSummaryModel)
    ensures
        s.total() == 0 ==> behavior_report(s).len() == 0,
        s.static_passed > 0 ==> has_line(
            behavior_report(s),
            Mark::Good,
            2,
            text::decimal(s.static_passed as nat) + " static invariant(s) satisfied"@,
        ),
        s.static_failed > 0 ==> has_line(
            behavior_report(s),
            Mark::Bad,
            2,
            text::decimal(s.static_failed as nat) + " static invariant(s) failed"@,
        ),
        s.llm_passed > 0 && s.cached == 0 ==> has_line(
            behavior_report(s),
            Mark::Good,
            2,
            text::decimal(s.llm_passed as nat) + (
            " behavioral invariant(s) satisfied (LLM-verified"@ + ")"@),
        ),
        s.llm_passed > 0 && s.cached > 0 ==> has_line(
            behavior_report(s),
            Mark::Good,
            2,
            text::decimal(s.llm_passed as nat) + (
            " behavioral invariant(s) satisfied (LLM-verified"@ + (", "@ + text::decimal(
                s.cached as nat,
            ) + " cached"@) + ")"@),
        ),
        s.llm_failed > 0 ==> has_line(
            behavior_report(s),
            Mark::Bad,
            2,
            text::decimal(s.llm_failed as nat) + " behavioral invariant(s) failed (LLM-verified)"@,
        ),
        s.skipped > 0 ==> has_line(
            behavior_report(s),
            Mark::Unused,
            2,
            text::decimal(s.skipped as nat) + " invariant(s) skipped"@,
        ),
{
    let of = |mark: Mark, t: Seq<char>| DiffLineModel { mark, indent: 2usize, text: t };
    let a = of(
        Mark::Good,
        text::decimal(s.static_passed as nat) + " static invariant(s) satisfied"@,
    );
    let b = of(
        Mark::Bad,
        text::decimal(s.static_failed as nat) + " static invariant(s) failed"@,
    );
    let tail = " behavioral invariant(s) satisfied (LLM-verified"@
        + crate::commands::check::cached_note(s.cached) + ")"@;
    if s.cached == 0 {
        assert(tail =~= " behavioral invariant(s) satisfied (LLM-verified"@ + ")"@);
    }
    let d = of(Mark::Good, text::decimal(s.llm_passed as nat) + tail);
    let e = of(
        Mark::Bad,
        text::decimal(s.llm_failed as nat) + " behavioral invariant(s) failed (LLM-verified)"@,
    );
    let f = of(Mark::Unused, text::decimal(s.skipped as nat) + " invariant(s) skipped"@);
    assert(seq![a][0] == a && seq![b][0] == b && seq![d][0] == d && seq![e][0] == e && seq![f][0]
        == f);
    assert(seq![a].contains(a) && seq![b].contains(b) && seq![d].contains(d) && seq![e].contains(e)
        && seq![f].contains(f));
    if s.total() > 0 {
        lemma_report_parts(s, a);
        lemma_report_parts(s, b);
        lemma_report_parts(s, d);
        lemma_report_parts(s, e);
        lemma_report_parts(s, f);
    }
}

/// A spec that was written for another text of its source is warned of by the name of its module.
pub proof fn stale_specs_are_named(spec: ModuleSpecModel, content: Seq<u8>)
    requires
        stale_warning(spec, content) is Some,
    ensures
        stale_warning(spec, content) matches Some(w) && w.kind == ConstraintKind::Structure
            && w.tier == VerificationTier::Syntactic && w.severity == ConstraintSeverity::Warning
            && w.message == "Spec of '"@ + spec.module
            + "' is stale: source_hash does not match the source file"@,
{
}

/// A report says where a source lies; a question mark where the spec does not say.
pub proof fn places_are_told(spec: ModuleSpecModel)
    ensures
        spec.source_path matches Some(p) ==> location_text(spec) == p,
        spec.source_path is None ==> location_text(spec) == "?"@,
{
}

/// The project that is chosen is the one of that name; it is an error to choose one that is not
/// there, or any where none are known.
pub proof fn projects_are_selected_by_name(graph: DependencyGraphModel, name: Seq<char>)
    ensures
        selected_project(Some(graph), None) matches Ok(None),
        graph.project(name) matches Some(p) ==> (selected_project(Some(graph), Some(name))
            matches Ok(Some(q)) && q == p),
        graph.project(name) is None ==> (selected_project(Some(graph), Some(name)) matches Err(e)
            && e == "Project '"@ + name + "' not found in dependency graph"@),
        selected_project(None, Some(name)) matches Err(e) && e
            == "--project requires dependencies to be configured (and --shallow must not be set)"@,
{
}

/// Of a protocol a comparison shows the states, how many transitions there are, each transition,
/// marked by whether its function is there, and each balanced pair.
pub proof fn protocols_are_shown(p: ProtocolSpecModel, m: ExtractedModuleModel, i: int)
    ensures
        has_line(
            protocol_lines(p, m),
            Mark::Plain,
            2,
            "States: "@ + text::join(p.states, ", "@) + " | Initial: "@ + p.initial
                + " | Terminal: "@ + quoted_list(p.terminal),
        ),
        has_line(
            protocol_lines(p, m),
            Mark::Plain,
            2,
            "Transitions: "@ + text::decimal(p.transitions.len()),
        ),
        0 <= i < p.transitions.len() ==> has_line(
            protocol_lines(p, m),
            if m.public_functions.contains(p.transitions[i].call) || has_key(
                m.function_info,
                p.transitions[i].call,
            ) {
                Mark::Good
            } else {
                Mark::Bad
            },
            4,
            p.transitions[i].from + " -> "@ + p.transitions[i].call + "() -> "@
                + p.transitions[i].to,
        ),
        p.balanced_pairs.len() > 0 ==> has_line(
            protocol_lines(p, m),
            Mark::Plain,
            2,
            "Balanced pairs:"@,
        ),
        0 <= i < p.balanced_pairs.len() ==> has_line(
            protocol_lines(p, m),
            Mark::Plain,
            4,
            "["@ + p.balanced_pairs[i].0 + ", "@ + p.balanced_pairs[i].1 + "]"@,
        ),
{
    let all = protocol_lines(p, m);
    let n = p.transitions.len();
    let pairs = pair_lines(p.balanced_pairs);
    assert(all.contains(all[0]));
    assert(all.contains(all[1]));
    if 0 <= i < n {
        assert(all[2 + i] == transition_line(p.transitions[i], m));
        assert(all.contains(all[2 + i]));
    }
    if p.balanced_pairs.len() > 0 {
        let at = 2 + n;
        assert(all[at as int] == pairs[0]);
        assert(all.contains(all[at as int]));
        if 0 <= i < p.balanced_pairs.len() {
            let k = at + 1 + i;
            assert(all[k as int] == pairs[1 + i]);
            assert(all.contains(all[k as int]));
        }
    }
}

// ─── Generated specs ──────────────────────────────────────────────────────────

/// In the end it is said how many specs were written and where, and how many files were left out,
/// if any; dependencies are noted with a file that has some.
pub proof fn generated_specs_are_counted(
    count: nat,
    directory: Seq<char>,
    skipped: nat,
    names: Seq<Seq<char>>,
)
    ensures
        skipped == 0 ==> closing_text(count, directory, skipped) == "Generated "@ + text::decimal(
            count,
        ) + " spec file(s) in "@ + directory,
        skipped > 0 ==> closing_text(count, directory, skipped) == "Generated "@ + text::decimal(
            count,
        ) + " spec file(s) in "@ + directory + " ("@ + text::decimal(skipped)
            + " file(s) excluded)"@,
        names.len() == 0 ==> dependency_note(names).len() == 0,
        names.len() > 0 ==> dependency_note(names) == " (deps: "@ + text::join(names, ", "@)
            + ")"@,
{
}

/// A language that is neither given nor detected, or that is not supported, is an error.
pub proof fn languages_are_asked_for(l: Seq<char>)
    ensures
        file_language(None, None) matches Err(e) && e
            == "Could not detect language. Use --language flag."@,
        extensions_for(Some(l)) is Err ==> extensions_for(Some(l))->Err_0 == "Unsupported language: "@
            + l,
{
}

/// A provider that is not configured is warned of, with those that are; so is one that is taken
/// because none is the default.
pub proof fn missing_providers_are_told(llm: LlmFileConfigModel, name: Seq<char>)
    requires
        llm.providers.len() > 0,
    ensures
        lookup(llm.providers, name) is None ==> chosen_provider(llm, Some(name)).1 == Some(
            "Warning: provider '"@ + name + "' not found in config. Available: "@ + text::join(
                keys(llm.providers),
                ", "@,
            ),
        ),
        lookup(llm.providers, name) is Some ==> chosen_provider(llm, Some(name)).1 is None,
        llm.default is None ==> (chosen_provider(llm, None).1 matches Some(w) && text::starts_with(
            w,
            "Warning: no default provider set, using '"@,
        )),
{
    if llm.default is None {
        let w = chosen_provider(llm, None).1->Some_0;
        let start = "Warning: no default provider set, using '"@;
        assert(w.subrange(0, start.len() as int) =~= start);
    }
}

// ─── Projects ─────────────────────────────────────────────────────────────────

/// Names of projects that disagree are told with the place where they do; a tree of projects is
/// drawn with branches, and with lines beside what hangs on a branch that is not the last.
pub proof fn disagreeing_names_are_told(name: Seq<char>, root: Seq<char>, expected: Seq<char>)
    ensures
        name_conflict(name, root, expected) == "Diamond dependency conflict: '"@ + name + "' at "@
            + root + " is also referenced as '"@ + expected + "'"@,
        name_mismatch(expected, root, name) == "Dependency name mismatch: consumer expects '"@
            + expected + "' but "@ + root + " declares name '"@ + name + "'"@,
        branch(true) == "└── "@,
        branch(false) == "├── "@,
        margin(true) == "    "@,
        margin(false) == "│   "@,
{
}

// ─── Solvers ──────────────────────────────────────────────────────────────────

/// A solver that cannot be used says why, and what it concludes is told in words.
pub proof fn solvers_say_what_went_wrong(reply: SolverReply, stdout: Seq<char>, stderr: Seq<char>)
    ensures
        reply matches SolverReply::Missing ==> reply_result(reply) == SmtResultModel::Error(
            "z3 not available"@,
        ),
        reply matches SolverReply::NotStarted(e) ==> reply_result(reply) == SmtResultModel::Error(
            "Failed to spawn z3: "@ + e@,
        ),
        reply matches SolverReply::NotWritten(e) ==> reply_result(reply) == SmtResultModel::Error(
            "Failed to write to z3 stdin: "@ + e@,
        ),
        reply matches SolverReply::NotRead(e) ==> reply_result(reply) == SmtResultModel::Error(
            "Failed to read z3 output: "@ + e@,
        ),
        output_result(stdout, stderr) is Error && stderr.len() > 0 ==> output_result(stdout, stderr)
            == SmtResultModel::Error("z3 error: "@ + text::trim(stderr)),
        output_result(stdout, stderr) is Error && stderr.len() == 0 ==> output_result(
            stdout,
            stderr,
        ) == SmtResultModel::Error("Unexpected z3 output: "@ + text::trim(stdout)),
        reply matches SolverReply::Missing ==> (ownership_conclusion(reply) matches Err(e) && e
            == "z3 not available"@),
        !(reply matches SolverReply::Missing) && reply_result(reply) is Unsat
            ==> (ownership_conclusion(reply) matches Err(e) && e
            == "State ownership conflict detected (SMT-verified)"@),
        !(reply matches SolverReply::Missing) && reply_result(reply) is Unknown
            ==> (ownership_conclusion(reply) matches Err(e) && e == "SMT solver could not decide"@),
{
}

// ─── Type formulas ────────────────────────────────────────────────────────────

/// Whether an expression stands for no type, for a reason.
pub open spec fn fails(e: TypeExprModel, ctx: ContextModel, reason: Seq<char>) -> bool {
    eval_type(e, ctx) == Err::<TypeReprModel, Seq<char>>(reason)
}

/// An expression that stands for no type says why: what is asked of a function or of a type where
/// there is none, or what the function or the type does not have.
pub proof fn missing_types_are_told(ctx: ContextModel, name: Seq<char>, n: usize)
    ensures
        ctx.function is None ==> fails(
            TypeExprModel::Return,
            ctx,
            "return used but no function context available"@,
        ) && fails(
            TypeExprModel::Param(ParamRefModel::Index(n)),
            ctx,
            "param() used but no function context available"@,
        ),
        ctx.function matches Some(f) ==> (f.return_type is None ==> fails(
            TypeExprModel::Return,
            ctx,
            "Function '"@ + f.name + "' has no return type"@,
        )) && (n >= f.params.len() ==> fails(
            TypeExprModel::Param(ParamRefModel::Index(n)),
            ctx,
            "Function '"@ + f.name + "' has no parameter at index "@ + text::decimal(n as nat)
                + " (has "@ + text::decimal(f.params.len()) + " params)"@,
        )) && (eval_type(TypeExprModel::Param(ParamRefModel::Name(name)), ctx) is Err ==> fails(
            TypeExprModel::Param(ParamRefModel::Name(name)),
            ctx,
            "Function '"@ + f.name + "' has no parameter named '"@ + name + "'"@,
        )),
        ctx.self_type is None ==> fails(
            TypeExprModel::Field(name),
            ctx,
            "field("@ + name + ") used but no type context available"@,
        ),
        ctx.self_type matches Some(t) ==> (eval_type(TypeExprModel::Field(name), ctx) is Err
            ==> fails(
            TypeExprModel::Field(name),
            ctx,
            "Type '"@ + t.name + "' has no field '"@ + name + "'"@,
        )),
        fails(
            TypeExprModel::Function(Seq::empty()),
            ctx,
            "function() requires at least one type (the return type)"@,
        ),
{
}

/// A type that is taken apart as it cannot be is told: one without arguments or with too few of
/// them, and one that is not that of a function or has too few parameters.
pub proof fn types_that_do_not_fit_are_told(
    e: TypeExprModel,
    t: TypeReprModel,
    n: usize,
    ctx: ContextModel,
)
    requires
        eval_type(e, ctx) == Ok::<TypeReprModel, Seq<char>>(t),
    ensures
        !(t is Applied) ==> fails(
            TypeExprModel::Arg(Box::new(e), n),
            ctx,
            "arg() requires a parameterized type, got '"@ + type_text(t) + "'"@,
        ),
        t matches TypeReprModel::Applied(_, args) ==> (n >= args.len() ==> fails(
            TypeExprModel::Arg(Box::new(e), n),
            ctx,
            "Type has "@ + text::decimal(args.len()) + " type arguments, index "@ + text::decimal(
                n as nat,
            ) + " out of bounds"@,
        )),
        !(t is FnPointer) ==> fails(
            TypeExprModel::Domain(Box::new(e), Some(n)),
            ctx,
            "domain() requires a function type, got '"@ + type_text(t) + "'"@,
        ) && fails(
            TypeExprModel::Codomain(Box::new(e)),
            ctx,
            "codomain() requires a function type, got '"@ + type_text(t) + "'"@,
        ),
        t matches TypeReprModel::FnPointer { params, .. } ==> (n >= params.len() ==> fails(
            TypeExprModel::Domain(Box::new(e), Some(n)),
            ctx,
            "Function type has "@ + text::decimal(params.len()) + " params, index "@
                + text::decimal(n as nat) + " out of bounds"@,
        )),
{
    reveal_with_fuel(eval_type, 2);
}

// ─── Answers that are kept ────────────────────────────────────────────────────

/// An answer is kept under a key of the code and the claim, apart from each other, in a file named
/// by the first characters of the key.
pub proof fn answers_are_kept_under_their_keys(code: Seq<char>, claim: Seq<char>, key: Seq<char>)
    requires
        text::is_ascii(key),
        key.len() >= 16,
    ensures
        key_of(code, claim) == full_hash(vstd::utf8::encode_utf8(code + "|"@ + claim)),
        cache_file_of(key) == Some(key.take(16) + ".json"@),
{
    lemma_cut_ascii(key, 0, 16);
    lemma_offset(key, key.len() as int);
    assert(key.subrange(0, 16) =~= key.take(16));
}

proof fn lemma_offset(s: Seq<char>, n: int)
    requires
        text::is_ascii(s),
        0 <= n <= s.len(),
    ensures
        byte_offset(s, n) >= n,
    decreases n,
{
    if n > 0 {
        lemma_offset(s, n - 1);
    }
}

// ─── Specs that are told to models ────────────────────────────────────────────

/// A spec is told to a model by its module, its description and its layer, where it has them, and
/// then by its entities, each with its kind and its description, and its invariants.
pub proof fn specs_are_told_to_models(spec: ModuleSpecModel, i: int)
    ensures
        spec_lines(spec).contains("module: "@ + spec.module),
        spec.description matches Some(d) ==> spec_lines(spec).contains(
            "description: \""@ + d + "\""@,
        ),
        0 <= i < spec.exposes.len() ==> (spec.exposes[i].1.kind matches Some(k) ==> (
        spec.exposes[i].1.description matches Some(d) ==> spec_lines(spec).contains(
            "  "@ + spec.exposes[i].0 + " ("@ + k + "): "@ + d,
        ))),
        0 <= i < spec.invariants.len() ==> spec_lines(spec).contains("invariants:"@) && spec_lines(
            spec,
        ).contains("  - "@ + spec.invariants[i]),
{
    let all = spec_lines(spec);
    let a = seq!["module: "@ + spec.module];
    let b = crate::ai_refine::optional_line("description: \""@, spec.description, "\""@);
    let c = crate::ai_refine::optional_line("layer: "@, spec.layer, ""@);
    let d = seq!["exposes:"@];
    let e = crate::ai_refine::entity_lines(spec.exposes);
    let f = crate::ai_refine::invariant_lines(spec.invariants);
    assert(all == a + b + c + d + e + f);
    assert(all[0] == a[0]);
    if spec.description is Some {
        assert(all[1] == b[0]);
    }
    if 0 <= i < spec.exposes.len() {
        let k = (a + b + c + d).len() + i;
        assert(all[k as int] == e[i]);
        assert(e[i] == crate::ai_refine::entity_line(spec.exposes[i]));
    }
    if 0 <= i < spec.invariants.len() {
        let k = (a + b + c + d + e).len();
        assert(all[k as int] == f[0]);
        assert(all[k + 1 + i] == f[1 + i]);
        assert(f[1 + i] == "  - "@ + spec.invariants[i]);
    }
}

// ─── Rules ────────────────────────────────────────────────────────────────────

/// A property that modules do not have is an error that names it.
pub proof fn unknown_properties_are_told(m: ModuleSpecModel, prop: Seq<char>)
    requires
        prop != "module"@,
        prop != "name"@,
        prop != "language"@,
        prop != "source_path"@,
        prop != "path"@,
        prop != "layer"@,
        prop != "context"@,
        prop != "stability"@,
    ensures
        module_property(m, prop) == Err::<Seq<char>, ObstacleModel>(
            ObstacleModel::Error("Unknown property: "@ + prop),
        ),
{
}

} // verus!

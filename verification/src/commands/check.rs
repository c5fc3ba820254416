//! Checking all specs of a project: what is counted, what is left out, and what is said in the
//! end.
use vstd::prelude::*;

use crate::behavioral::orchestrate::{BehavioralSummary, BehavioralSummaryModel};
use crate::checker::{
    constraint_kind_text, verification_tier_text, CheckResult, ConstraintKind, ConstraintResult,
    ConstraintResultModel, ConstraintSeverity, VerificationTier,
};
use crate::commands::diff::{line, DiffLine, DiffLineModel, Mark};
use crate::data::append_item;
use crate::dependency::{DependencyGraph, ResolvedProject, ResolvedProjectModel};
use crate::hash::{compute_source_hash, short_hash};
use crate::spec::{ModuleSpec, ModuleSpecModel};
use crate::text;

verus! {

// ─── Counting ─────────────────────────────────────────────────────────────────

/// How many of the first `k` findings are of a severity.
pub open spec fn count_findings(
    findings: Seq<ConstraintResultModel>,
    severity: ConstraintSeverity,
    k: int,
) -> nat
    decreases k,
{
    if k <= 0 || k > findings.len() {
        0
    } else {
        count_findings(findings, severity, k - 1) + (if findings[k - 1].severity == severity {
            1nat
        } else {
            0nat
        })
    }
}

/// How many specs passed, and how many errors and warnings were found.
#[derive(Debug)]
pub struct Tally {
    pub passed: usize,
    pub errors: usize,
    pub warnings: usize,
}

/// What a [`Tally`] holds.
#[verifier::ext_equal]
pub struct TallyModel {
    pub passed: usize,
    pub errors: usize,
    pub warnings: usize,
}

impl DeepView for Tally {
    type V = TallyModel;

    open spec fn deep_view(&self) -> TallyModel {
        TallyModel {
            passed: self.passed,
            errors: self.errors,
            warnings: self.warnings,
        }
    }
}

impl TallyModel {
    /// Whether some more can be counted.
    pub open spec fn has_room(self, n: nat) -> bool {
        self.passed + n <= usize::MAX && self.errors + n <= usize::MAX && self.warnings + n
            <= usize::MAX
    }

    /// With more findings.
    pub open spec fn with_findings(self, findings: Seq<ConstraintResultModel>) -> TallyModel {
        let n = findings.len() as int;
        TallyModel {
            errors: (self.errors + count_findings(findings, ConstraintSeverity::Error, n)) as usize,
            warnings: (self.warnings + count_findings(
                findings,
                ConstraintSeverity::Warning,
                n,
            )) as usize,
            ..self
        }
    }

    /// With one more spec that was checked: it passed if there are no findings.
    pub open spec fn with_result(self, findings: Seq<ConstraintResultModel>) -> TallyModel {
        if findings.len() == 0 {
            TallyModel { passed: (self.passed + 1) as usize, ..self }
        } else {
            self.with_findings(findings)
        }
    }

    /// With the invariants that failed.
    pub open spec fn with_behavior(self, summary: BehavioralSummaryModel) -> TallyModel {
        TallyModel {
            errors: (self.errors + summary.static_failed + summary.llm_failed) as usize,
            ..self
        }
    }
}

proof fn lemma_count_bound(
    findings: Seq<ConstraintResultModel>,
    severity: ConstraintSeverity,
    k: int,
)
    requires
        0 <= k <= findings.len(),
    ensures
        count_findings(findings, severity, k) <= k,
    decreases k,
{
    if k > 0 {
        lemma_count_bound(findings, severity, k - 1);
    }
}

impl Tally {
    pub fn new() -> (r: Self)
        ensures
            r.deep_view() == (TallyModel { passed: 0, errors: 0, warnings: 0 }),
    {
        Tally { passed: 0, errors: 0, warnings: 0 }
    }

    /// Whether some more can be counted.
    pub fn has_room(&self, n: usize) -> (b: bool)
        ensures
            b == self.deep_view().has_room(n as nat),
    {
        self.passed <= usize::MAX - n && self.errors <= usize::MAX - n && self.warnings
            <= usize::MAX - n
    }

    /// Counts findings.
    pub fn add_findings(&mut self, findings: &Vec<ConstraintResult>)
        requires
            old(self).deep_view().has_room(findings@.len()),
        ensures
            final(self).deep_view() == old(self).deep_view().with_findings(findings.deep_view()),
    {
        let ghost start = self.deep_view();
        let ghost all = findings.deep_view();
        let mut i: usize = 0;
        while i < findings.len()
            invariant
                i <= findings@.len(),
                all == findings.deep_view(),
                start.has_room(findings@.len()),
                self.deep_view() == (TallyModel {
                    errors: (start.errors + count_findings(
                        all,
                        ConstraintSeverity::Error,
                        i as int,
                    )) as usize,
                    warnings: (start.warnings + count_findings(
                        all,
                        ConstraintSeverity::Warning,
                        i as int,
                    )) as usize,
                    ..start
                }),
            decreases findings@.len() - i,
        {
            proof {
                assert(all[i as int] == findings@[i as int].deep_view());
                lemma_count_bound(all, ConstraintSeverity::Error, i as int);
                lemma_count_bound(all, ConstraintSeverity::Warning, i as int);
            }
            match findings[i].severity {
                ConstraintSeverity::Error => {
                    self.errors = self.errors + 1;
                },
                ConstraintSeverity::Warning => {
                    self.warnings = self.warnings + 1;
                },
            }
            i += 1;
        }
    }

    /// Counts a spec that was checked.
    pub fn add_result(&mut self, result: &CheckResult)
        requires
            old(self).deep_view().has_room(result.constraint_results@.len() + 1),
        ensures
            final(self).deep_view() == old(self).deep_view().with_result(
                result.deep_view().constraint_results,
            ),
    {
        if result.constraint_results.len() == 0 {
            self.passed = self.passed + 1;
        } else {
            self.add_findings(&result.constraint_results);
        }
    }

    /// Counts the invariants that failed.
    pub fn add_behavior(&mut self, summary: &BehavioralSummary)
        requires
            old(self).errors + summary.static_failed + summary.llm_failed <= usize::MAX,
        ensures
            final(self).deep_view() == old(self).deep_view().with_behavior(summary.deep_view()),
    {
        self.errors = self.errors + summary.static_failed + summary.llm_failed;
    }
}

/// What checking comes to.
#[derive(Debug, Clone, Copy, PartialEq, Eq, Structural)]
pub enum Verdict {
    /// There are errors
    Failed,
    /// There are warnings, and no errors
    Warned,
    /// There are neither
    Passed,
}

impl DeepView for Verdict {
    type V = Verdict;

    open spec fn deep_view(&self) -> Verdict {
        *self
    }
}

impl TallyModel {
    /// What checking comes to.
    pub open spec fn verdict(self) -> Verdict {
        if self.errors > 0 {
            Verdict::Failed
        } else if self.warnings > 0 {
            Verdict::Warned
        } else {
            Verdict::Passed
        }
    }

    /// What is said in the end. Of a project that is checked by itself, warnings are not
    /// mentioned where it passes.
    pub open spec fn closing(self, isolated: bool) -> Seq<char> {
        if self.errors > 0 {
            text::decimal(self.passed as nat) + " passed, "@ + text::decimal(self.errors as nat)
                + " error(s), "@ + text::decimal(self.warnings as nat) + " warning(s)"@
        } else if self.warnings > 0 && !isolated {
            text::decimal(self.passed as nat) + " passed, "@ + text::decimal(
                self.warnings as nat,
            ) + " warning(s)"@
        } else {
            "All "@ + text::decimal(self.passed as nat) + " specs validated"@
        }
    }
}

impl Tally {
    /// What checking comes to.
    pub fn verdict(&self) -> (r: Verdict)
        ensures
            r == self.deep_view().verdict(),
    {
        if self.errors > 0 {
            Verdict::Failed
        } else if self.warnings > 0 {
            Verdict::Warned
        } else {
            Verdict::Passed
        }
    }

    /// What is said in the end.
    pub fn closing(&self, isolated: bool) -> (r: String)
        ensures
            r@ == self.deep_view().closing(isolated),
    {
        if self.errors > 0 {
            let mut s = text::usize_string(self.passed);
            s.append(" passed, ");
            s.append(text::usize_string(self.errors).as_str());
            s.append(" error(s), ");
            s.append(text::usize_string(self.warnings).as_str());
            s.append(" warning(s)");
            s
        } else if self.warnings > 0 && !isolated {
            let mut s = text::usize_string(self.passed);
            s.append(" passed, ");
            s.append(text::usize_string(self.warnings).as_str());
            s.append(" warning(s)");
            s
        } else {
            let mut s = "All ".to_owned();
            s.append(text::usize_string(self.passed).as_str());
            s.append(" specs validated");
            s
        }
    }
}

// ─── Findings ─────────────────────────────────────────────────────────────────

/// The tag of a finding: its kind and its tier.
pub open spec fn tag_text(finding: ConstraintResultModel) -> Seq<char> {
    "["@ + constraint_kind_text(finding.kind) + "|"@ + verification_tier_text(finding.tier) + "]"@
}

/// Writes the tag of a finding.
pub fn finding_tag(finding: &ConstraintResult) -> (r: String)
    ensures
        r@ == tag_text(finding.deep_view()),
{
    let mut tag = "[".to_owned();
    tag.append(finding.kind.to_string().as_str());
    tag.append("|");
    tag.append(finding.tier.to_string().as_str());
    tag.append("]");
    tag
}

/// Where the source of a module is, for reports.
pub open spec fn location_text(spec: ModuleSpecModel) -> Seq<char> {
    match spec.source_path {
        Some(p) => p,
        None => "?"@,
    }
}

pub fn location(spec: &ModuleSpec) -> (r: &str)
    ensures
        r@ == location_text(spec.deep_view()),
{
    match &spec.source_path {
        Some(p) => p.as_str(),
        None => "?",
    }
}

// ─── Staleness ────────────────────────────────────────────────────────────────

/// Whether a spec was written for another text of its source than this one: whether the hash
/// that it holds, if any, is another.
pub open spec fn is_stale(spec: ModuleSpecModel, content: Seq<u8>) -> bool {
    spec.source_hash matches Some(h) && h != short_hash(content)
}

/// The warning that a spec is stale, if it is.
pub open spec fn stale_warning(spec: ModuleSpecModel, content: Seq<u8>) -> Option<
    ConstraintResultModel,
> {
    if is_stale(spec, content) {
        Some(
            ConstraintResultModel {
                kind: ConstraintKind::Structure,
                tier: VerificationTier::Syntactic,
                severity: ConstraintSeverity::Warning,
                message: "Spec of '"@ + spec.module
                    + "' is stale: source_hash does not match the source file"@,
            },
        )
    } else {
        None
    }
}

/// Warns where a spec was written for another text of its source than this one.
pub fn check_staleness(spec: &ModuleSpec, content: &[u8]) -> (r: Option<ConstraintResult>)
    ensures
        r.deep_view() == stale_warning(spec.deep_view(), content@),
{
    match &spec.source_hash {
        Some(h) => {
            if text::same(h.as_str(), compute_source_hash(content).as_str()) {
                None
            } else {
                let mut message = "Spec of '".to_owned();
                message.append(spec.module.as_str());
                message.append("' is stale: source_hash does not match the source file");
                Some(
                    ConstraintResult {
                        kind: ConstraintKind::Structure,
                        tier: VerificationTier::Syntactic,
                        severity: ConstraintSeverity::Warning,
                        message,
                    },
                )
            }
        },
        None => None,
    }
}

// ─── Behavior ─────────────────────────────────────────────────────────────────

impl BehavioralSummaryModel {
    /// With all that another summary counts.
    pub open spec fn with_summary(self, other: BehavioralSummaryModel) -> BehavioralSummaryModel {
        BehavioralSummaryModel {
            static_passed: (self.static_passed + other.static_passed) as usize,
            static_failed: (self.static_failed + other.static_failed) as usize,
            llm_passed: (self.llm_passed + other.llm_passed) as usize,
            llm_failed: (self.llm_failed + other.llm_failed) as usize,
            cached: (self.cached + other.cached) as usize,
            skipped: (self.skipped + other.skipped) as usize,
            failures: self.failures + other.failures,
        }
    }
}

impl BehavioralSummary {
    /// Whether all that another summary counts can be counted too.
    pub fn can_absorb(&self, other: &BehavioralSummary) -> (b: bool)
        ensures
            b == (self.deep_view().total() + other.deep_view().total() <= usize::MAX),
    {
        self.static_passed as u128 + self.static_failed as u128 + self.llm_passed as u128
            + self.llm_failed as u128 + self.skipped as u128 + other.static_passed as u128
            + other.static_failed as u128 + other.llm_passed as u128 + other.llm_failed as u128
            + other.skipped as u128 <= usize::MAX as u128
    }

    /// Counts all that another summary counts.
    pub fn absorb(&mut self, other: BehavioralSummary)
        requires
            old(self).deep_view().wf(),
            other.deep_view().wf(),
            old(self).deep_view().total() + other.deep_view().total() <= usize::MAX,
        ensures
            final(self).deep_view() == old(self).deep_view().with_summary(other.deep_view()),
            final(self).deep_view().wf(),
    {
        let ghost before = self.failures.deep_view();
        let ghost more = other.failures.deep_view();
        self.static_passed = self.static_passed + other.static_passed;
        self.static_failed = self.static_failed + other.static_failed;
        self.llm_passed = self.llm_passed + other.llm_passed;
        self.llm_failed = self.llm_failed + other.llm_failed;
        self.cached = self.cached + other.cached;
        self.skipped = self.skipped + other.skipped;
        let mut rest = other.failures;
        self.failures.append(&mut rest);
        assert(self.failures.deep_view() =~= before + more);
    }
}

/// A line with a number, unless it is zero.
pub open spec fn count_line(mark: Mark, n: usize, text: Seq<char>) -> Seq<DiffLineModel> {
    if n > 0 {
        seq![line(mark, 2, text::decimal(n as nat) + text)]
    } else {
        Seq::empty()
    }
}

pub open spec fn cached_note(n: usize) -> Seq<char> {
    if n > 0 {
        ", "@ + text::decimal(n as nat) + " cached"@
    } else {
        Seq::empty()
    }
}

/// The report on the invariants of a module, where it has any.
pub open spec fn behavior_report(s: BehavioralSummaryModel) -> Seq<DiffLineModel> {
    if s.total() == 0 {
        Seq::empty()
    } else {
        count_line(Mark::Good, s.static_passed, " static invariant(s) satisfied"@) + count_line(
            Mark::Bad,
            s.static_failed,
            " static invariant(s) failed"@,
        ) + count_line(
            Mark::Good,
            s.llm_passed,
            " behavioral invariant(s) satisfied (LLM-verified"@ + cached_note(s.cached) + ")"@,
        ) + count_line(
            Mark::Bad,
            s.llm_failed,
            " behavioral invariant(s) failed (LLM-verified)"@,
        ) + count_line(Mark::Unused, s.skipped, " invariant(s) skipped"@) + s.failures.map_values(
            |f: (Seq<char>, Seq<char>)| line(Mark::Arrow, 4, f.0 + ": "@ + f.1),
        )
    }
}

fn add_count_line(mark: Mark, n: usize, text: &str, out: &mut Vec<DiffLine>)
    ensures
        final(out).deep_view() == old(out).deep_view() + count_line(mark, n, text@),
{
    let ghost start = out.deep_view();
    if n > 0 {
        let mut s = text::usize_string(n);
        s.append(text);
        append_item(out, DiffLine { mark, indent: 2, text: s });
    }
    assert(out.deep_view() =~= start + count_line(mark, n, text@));
}

/// Reports on the invariants of a module, line by line.
pub fn behavior_lines(summary: &BehavioralSummary) -> (r: Vec<DiffLine>)
    requires
        summary.deep_view().wf(),
    ensures
        r.deep_view() == behavior_report(summary.deep_view()),
{
    let ghost model = summary.deep_view();
    let mut out: Vec<DiffLine> = Vec::new();
    if summary.static_passed == 0 && summary.static_failed == 0 && summary.llm_passed == 0
        && summary.llm_failed == 0 && summary.skipped == 0 {
        assert(out.deep_view() =~= Seq::empty());
        return out;
    }
    add_count_line(
        Mark::Good,
        summary.static_passed,
        " static invariant(s) satisfied",
        &mut out,
    );
    add_count_line(Mark::Bad, summary.static_failed, " static invariant(s) failed", &mut out);
    let mut satisfied = " behavioral invariant(s) satisfied (LLM-verified".to_owned();
    let mut note: String = String::new();
    if summary.cached > 0 {
        note = ", ".to_owned();
        note.append(text::usize_string(summary.cached).as_str());
        note.append(" cached");
    }
    satisfied.append(note.as_str());
    satisfied.append(")");
    add_count_line(Mark::Good, summary.llm_passed, satisfied.as_str(), &mut out);
    add_count_line(
        Mark::Bad,
        summary.llm_failed,
        " behavioral invariant(s) failed (LLM-verified)",
        &mut out,
    );
    add_count_line(Mark::Unused, summary.skipped, " invariant(s) skipped", &mut out);
    let ghost start = out.deep_view();
    let ghost all = model.failures.map_values(
        |f: (Seq<char>, Seq<char>)| line(Mark::Arrow, 4, f.0 + ": "@ + f.1),
    );
    let mut i: usize = 0;
    assert(start + all.take(0) =~= start);
    while i < summary.failures.len()
        invariant
            i <= summary.failures@.len(),
            all == summary.deep_view().failures.map_values(
                |f: (Seq<char>, Seq<char>)| line(Mark::Arrow, 4, f.0 + ": "@ + f.1),
            ),
            out.deep_view() == start + all.take(i as int),
        decreases summary.failures@.len() - i,
    {
        assert(summary.deep_view().failures[i as int] == summary.failures@[i as int].deep_view());
        let mut s = summary.failures[i].0.clone();
        s.append(": ");
        s.append(summary.failures[i].1.as_str());
        append_item(&mut out, DiffLine { mark: Mark::Arrow, indent: 4, text: s });
        assert(start + all.take(i + 1) =~= (start + all.take(i as int)).push(all[i as int]));
        i += 1;
    }
    assert(all.take(all.len() as int) =~= all);
    assert(out.deep_view() =~= behavior_report(model));
    out
}

// ─── What is checked ──────────────────────────────────────────────────────────

/// The project that is to be checked by itself, if one is chosen.
pub open spec fn selected_project(
    graph: Option<crate::dependency::DependencyGraphModel>,
    chosen: Option<Seq<char>>,
) -> Result<Option<ResolvedProjectModel>, Seq<char>> {
    match chosen {
        None => Ok(None),
        Some(name) => match graph {
            Some(g) => match g.project(name) {
                Some(p) => Ok(Some(p)),
                None => Err("Project '"@ + name + "' not found in dependency graph"@),
            },
            None => Err(
                "--project requires dependencies to be configured (and --shallow must not be set)"@,
            ),
        },
    }
}

/// Selects the project that is to be checked by itself, if one is chosen.
pub fn select_project<'a>(graph: &'a Option<DependencyGraph>, chosen: Option<&str>) -> (r: Result<
    Option<&'a ResolvedProject>,
    String,
>)
    requires
        graph matches Some(g) ==> g.wf(),
    ensures
        crate::data::result_view(r) == selected_project(
            graph.deep_view(),
            match chosen {
                Some(name) => Some(name@),
                None => None,
            },
        ),
{
    match chosen {
        None => Ok(None),
        Some(name) => match graph {
            Some(g) => match g.get(name) {
                Some(p) => Ok(Some(p)),
                None => {
                    let mut message = "Project '".to_owned();
                    message.append(name);
                    message.append("' not found in dependency graph");
                    Err(message)
                },
            },
            None => Err(
                "--project requires dependencies to be configured (and --shallow must not be set)".to_owned(),
            ),
        },
    }
}

/// Whether a text matches a pattern of a shell, on systems where only `/` parts paths; none
/// where it is no pattern.
pub uninterp spec fn glob_match(pattern: Seq<char>, path: Seq<char>) -> Option<bool>;

/// Whether no backslash stands in a text.
pub open spec fn no_backslash(s: Seq<char>) -> bool {
    forall|i: int| 0 <= i < s.len() ==> #[trigger] s[i] != '\\'
}

/// `glob::Pattern::new` and `glob::Pattern::matches` with the default options: a function of
/// the pattern and the path. A backslash parts paths on some systems alone, so nothing is said
/// of texts that hold one.
#[verifier::external_body]
fn matches_glob(pattern: &str, path: &str) -> (r: Option<bool>)
    ensures
        no_backslash(pattern@) && no_backslash(path@) ==> r == glob_match(pattern@, path@),
{
    match glob::Pattern::new(pattern) {
        Ok(p) => Some(p.matches(path)),
        Err(_) => None,
    }
}

/// The pattern for paths below a directory.
pub open spec fn full_pattern(root: Seq<char>, pattern: Seq<char>) -> Seq<char> {
    root + "/"@ + pattern
}

/// Whether a path below a directory is excluded: whether one of the patterns matches it.
pub open spec fn excluded(root: Seq<char>, patterns: Seq<Seq<char>>, path: Seq<char>) -> bool {
    exists|i: int|
        0 <= i < patterns.len() && glob_match(
            full_pattern(root, #[trigger] patterns[i]),
            path,
        ) == Some(true)
}

/// Whether no backslash stands in a path, or in the patterns for paths below a directory.
pub open spec fn slashes_only(root: Seq<char>, patterns: Seq<Seq<char>>, path: Seq<char>) -> bool {
    &&& no_backslash(path)
    &&& forall|i: int|
        0 <= i < patterns.len() ==> no_backslash(full_pattern(root, #[trigger] patterns[i]))
}

/// Whether one of several matches was found.
pub open spec fn any_match(matches: Seq<Option<bool>>) -> bool {
    exists|i: int| 0 <= i < matches.len() && #[trigger] matches[i] == Some(true)
}

/// Decides from the matches of patterns whether a path is excluded.
pub fn is_any_match(matches: &Vec<Option<bool>>) -> (b: bool)
    ensures
        b == any_match(matches@),
{
    let mut i: usize = 0;
    while i < matches.len()
        invariant
            i <= matches@.len(),
            forall|j: int| 0 <= j < i ==> #[trigger] matches@[j] != Some(true),
        decreases matches@.len() - i,
    {
        match matches[i] {
            Some(b) => {
                if b {
                    assert(matches@[i as int] == Some(true));
                    return true;
                }
            },
            None => {},
        }
        i += 1;
    }
    false
}

/// Whether a path below a directory is excluded.
pub fn is_excluded(root: &str, patterns: &Vec<String>, path: &str) -> (b: bool)
    ensures
        slashes_only(root@, patterns.deep_view(), path@) ==> b == excluded(
            root@,
            patterns.deep_view(),
            path@,
        ),
        patterns@.len() == 0 ==> !b,
{
    let ghost all = patterns.deep_view();
    let mut matches: Vec<Option<bool>> = Vec::new();
    let mut i: usize = 0;
    while i < patterns.len()
        invariant
            i <= patterns@.len(),
            all == patterns.deep_view(),
            matches@.len() == i,
            slashes_only(root@, all, path@) ==> forall|j: int|
                0 <= j < i ==> #[trigger] matches@[j] == glob_match(
                    full_pattern(root@, all[j]),
                    path@,
                ),
        decreases patterns@.len() - i,
    {
        assert(all[i as int] == patterns@[i as int]@);
        let mut pattern = root.to_owned();
        pattern.append("/");
        pattern.append(patterns[i].as_str());
        matches.push(matches_glob(pattern.as_str(), path));
        i += 1;
    }
    proof {
        if slashes_only(root@, all, path@) {
            if any_match(matches@) {
                let k = choose|k: int| 0 <= k < matches@.len() && #[trigger] matches@[k] == Some(true);
                assert(glob_match(full_pattern(root@, all[k]), path@) == Some(true));
            }
            if excluded(root@, all, path@) {
                let k = choose|k: int|
                    0 <= k < all.len() && glob_match(
                        full_pattern(root@, #[trigger] all[k]),
                        path@,
                    ) == Some(true);
                assert(matches@[k] == Some(true));
            }
        }
    }
    is_any_match(&matches)
}

// ─── Laws ─────────────────────────────────────────────────────────────────────

/// Every finding is counted once, as an error or as a warning.
pub proof fn findings_are_counted_once(tally: TallyModel, findings: Seq<ConstraintResultModel>)
    requires
        tally.has_room(findings.len()),
    ensures
        tally.with_findings(findings).errors + tally.with_findings(findings).warnings
            == tally.errors + tally.warnings + findings.len(),
        tally.with_findings(findings).passed == tally.passed,
{
    lemma_counts(findings, findings.len() as int);
}

proof fn lemma_counts(findings: Seq<ConstraintResultModel>, k: int)
    requires
        0 <= k <= findings.len(),
    ensures
        count_findings(findings, ConstraintSeverity::Error, k) + count_findings(
            findings,
            ConstraintSeverity::Warning,
            k,
        ) == k,
    decreases k,
{
    if k > 0 {
        lemma_counts(findings, k - 1);
    }
}

/// A spec that holds the hash of its source is not stale, whatever else it holds.
pub proof fn hashed_specs_are_fresh(spec: ModuleSpecModel, content: Seq<u8>)
    requires
        spec.source_hash == Some(short_hash(content)),
    ensures
        stale_warning(spec, content) is None,
{
}

/// Checking fails exactly where an error was counted.
pub proof fn errors_fail(tally: TallyModel)
    ensures
        tally.verdict() == Verdict::Failed <==> tally.errors > 0,
{
}

} // verus!

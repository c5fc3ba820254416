//! Behavioral checks: the invariants of a spec, decided by looking for patterns in the code,
//! or by asking a language model.
pub mod judgement;
pub mod llm;
pub mod orchestrate;

use vstd::prelude::*;

use crate::data::{append_item, Duplicate};
use crate::spec::{ExposeSpecModel, ModuleSpec, ModuleSpecModel};
use crate::text;

verus! {

// ─── Classification ───────────────────────────────────────────────────────────

/// How an invariant is checked.
#[derive(Debug, Clone, Copy, PartialEq, Eq, Structural)]
pub enum InvariantTier {
    /// By looking for patterns in the code
    Static,
    /// By a language model
    Behavioral,
}

impl DeepView for InvariantTier {
    type V = InvariantTier;

    open spec fn deep_view(&self) -> InvariantTier {
        *self
    }
}

/// An invariant, with how it is checked.
#[derive(Debug)]
pub struct ClassifiedInvariant {
    pub text: String,
    pub tier: InvariantTier,
    pub module_name: String,
    pub source_path: Option<String>,
}

/// What a [`ClassifiedInvariant`] holds.
#[verifier::ext_equal]
pub struct ClassifiedInvariantModel {
    pub text: Seq<char>,
    pub tier: InvariantTier,
    pub module_name: Seq<char>,
    pub source_path: Option<Seq<char>>,
}

impl DeepView for ClassifiedInvariant {
    type V = ClassifiedInvariantModel;

    open spec fn deep_view(&self) -> ClassifiedInvariantModel {
        ClassifiedInvariantModel {
            text: self.text.deep_view(),
            tier: self.tier,
            module_name: self.module_name.deep_view(),
            source_path: self.source_path.deep_view(),
        }
    }
}

impl Clone for ClassifiedInvariant {
    fn clone(&self) -> (r: Self)
        ensures
            r.deep_view() == self.deep_view(),
    {
        self.duplicate()
    }
}

impl Duplicate for ClassifiedInvariant {
    fn duplicate(&self) -> (r: Self) {
        ClassifiedInvariant {
            text: self.text.duplicate(),
            tier: self.tier,
            module_name: self.module_name.duplicate(),
            source_path: self.source_path.duplicate(),
        }
    }
}

/// What checking an invariant came to.
#[derive(Debug)]
pub struct InvariantResult {
    pub satisfies: bool,
    pub reasoning: String,
    pub tier: String,
}

/// What a [`InvariantResult`] holds.
#[verifier::ext_equal]
pub struct InvariantResultModel {
    pub satisfies: bool,
    pub reasoning: Seq<char>,
    pub tier: Seq<char>,
}

impl DeepView for InvariantResult {
    type V = InvariantResultModel;

    open spec fn deep_view(&self) -> InvariantResultModel {
        InvariantResultModel {
            satisfies: self.satisfies,
            reasoning: self.reasoning.deep_view(),
            tier: self.tier.deep_view(),
        }
    }
}

impl Clone for InvariantResult {
    fn clone(&self) -> (r: Self)
        ensures
            r.deep_view() == self.deep_view(),
    {
        self.duplicate()
    }
}

impl Duplicate for InvariantResult {
    fn duplicate(&self) -> (r: Self) {
        InvariantResult {
            satisfies: self.satisfies,
            reasoning: self.reasoning.duplicate(),
            tier: self.tier.duplicate(),
        }
    }
}

/// Whether an invariant is one of a function: what it requires or ensures.
pub open spec fn is_function_level(s: Seq<char>) -> bool {
    text::contains(s, ": requires "@) || text::contains(s, ": ensures "@)
}

pub open spec fn forbids_panics(lower: Seq<char>) -> bool {
    text::contains(lower, "never panics"@) || text::contains(lower, "no panic"@)
}

pub open spec fn forbids_unwrap(lower: Seq<char>) -> bool {
    text::contains(lower, "no unwrap"@) || text::contains(lower, "never unwrap"@)
}

pub open spec fn forbids_unsafe(lower: Seq<char>) -> bool {
    text::contains(lower, "no unsafe"@) || text::contains(lower, "never unsafe"@)
}

pub open spec fn promises_result(lower: Seq<char>) -> bool {
    text::contains(lower, "returns result"@) || text::contains(lower, "returns error"@)
}

/// How an invariant is checked. Only assertions about a module as a whole can be checked by
/// looking for patterns.
pub open spec fn tier_of(s: Seq<char>) -> InvariantTier {
    let lower = text::lowercase(s);
    if is_function_level(s) {
        InvariantTier::Behavioral
    } else if forbids_panics(lower) || promises_result(lower) || forbids_unwrap(lower)
        || forbids_unsafe(lower) {
        InvariantTier::Static
    } else {
        InvariantTier::Behavioral
    }
}

fn no_panics_wanted(lower: &str) -> (b: bool)
    ensures
        b == forbids_panics(lower@),
{
    text::text_contains(lower, "never panics") || text::text_contains(lower, "no panic")
}

fn no_unwrap_wanted(lower: &str) -> (b: bool)
    ensures
        b == forbids_unwrap(lower@),
{
    text::text_contains(lower, "no unwrap") || text::text_contains(lower, "never unwrap")
}

fn no_unsafe_wanted(lower: &str) -> (b: bool)
    ensures
        b == forbids_unsafe(lower@),
{
    text::text_contains(lower, "no unsafe") || text::text_contains(lower, "never unsafe")
}

/// Classifies an invariant.
pub fn classify_invariant(s: &str) -> (r: InvariantTier)
    ensures
        r == tier_of(s@),
{
    if text::text_contains(s, ": requires ") || text::text_contains(s, ": ensures ") {
        return InvariantTier::Behavioral;
    }
    let lower = s.to_lowercase();
    let l = lower.as_str();
    if no_panics_wanted(l) || text::text_contains(l, "returns result") || text::text_contains(
        l,
        "returns error",
    ) || no_unwrap_wanted(l) || no_unsafe_wanted(l) {
        InvariantTier::Static
    } else {
        InvariantTier::Behavioral
    }
}

pub open spec fn classified(spec: ModuleSpecModel, s: Seq<char>) -> ClassifiedInvariantModel {
    ClassifiedInvariantModel {
        text: s,
        tier: tier_of(s),
        module_name: spec.module,
        source_path: spec.source_path,
    }
}

/// The invariants of a module, classified.
pub open spec fn module_invariants(spec: ModuleSpecModel) -> Seq<ClassifiedInvariantModel> {
    spec.invariants.map_values(|s: Seq<char>| classified(spec, s))
}

/// What a function requires or ensures, as invariants, classified.
pub open spec fn clause_invariants(
    spec: ModuleSpecModel,
    name: Seq<char>,
    word: Seq<char>,
    clauses: Seq<Seq<char>>,
) -> Seq<ClassifiedInvariantModel> {
    clauses.map_values(|c: Seq<char>| classified(spec, name + word + c))
}

/// The invariants of an exposed entity. A type has none.
pub open spec fn entity_invariants(spec: ModuleSpecModel, entry: (Seq<char>, ExposeSpecModel)) -> Seq<
    ClassifiedInvariantModel,
> {
    if entry.1.kind == Some("type"@) {
        Seq::empty()
    } else {
        clause_invariants(spec, entry.0, ": requires "@, entry.1.requires) + clause_invariants(
            spec,
            entry.0,
            ": ensures "@,
            entry.1.ensures,
        )
    }
}

/// The invariants of the first `k` exposed entities.
pub open spec fn entities_invariants(spec: ModuleSpecModel, k: int) -> Seq<ClassifiedInvariantModel>
    decreases k,
{
    if k <= 0 || k > spec.exposes.len() {
        Seq::empty()
    } else {
        entities_invariants(spec, k - 1) + entity_invariants(spec, spec.exposes[k - 1])
    }
}

/// All invariants of a spec: those of the module, and those of its functions.
pub open spec fn all_invariants(spec: ModuleSpecModel) -> Seq<ClassifiedInvariantModel> {
    module_invariants(spec) + entities_invariants(spec, spec.exposes.len() as int)
}

fn make_classified(spec: &ModuleSpec, s: String) -> (r: ClassifiedInvariant)
    ensures
        r.deep_view() == classified(spec.deep_view(), s@),
{
    let tier = classify_invariant(s.as_str());
    ClassifiedInvariant {
        text: s,
        tier,
        module_name: spec.module.clone(),
        source_path: spec.source_path.duplicate(),
    }
}

fn add_clauses(
    spec: &ModuleSpec,
    name: &str,
    word: &str,
    clauses: &Vec<String>,
    out: &mut Vec<ClassifiedInvariant>,
)
    ensures
        final(out).deep_view() == old(out).deep_view() + clause_invariants(
            spec.deep_view(),
            name@,
            word@,
            clauses.deep_view(),
        ),
{
    let ghost start = out.deep_view();
    let ghost all = clause_invariants(spec.deep_view(), name@, word@, clauses.deep_view());
    assert(start + all.take(0) =~= start);
    let mut i: usize = 0;
    while i < clauses.len()
        invariant
            i <= clauses@.len(),
            all == clause_invariants(spec.deep_view(), name@, word@, clauses.deep_view()),
            out.deep_view() == start + all.take(i as int),
        decreases clauses@.len() - i,
    {
        assert(clauses.deep_view()[i as int] == clauses@[i as int]@);
        let mut s = name.to_owned();
        s.append(word);
        s.append(clauses[i].as_str());
        append_item(out, make_classified(spec, s));
        assert(start + all.take(i + 1) =~= (start + all.take(i as int)).push(all[i as int]));
        i += 1;
    }
    assert(all.take(all.len() as int) =~= all);
}

/// Collects all invariants of a spec.
pub fn collect_invariants(spec: &ModuleSpec) -> (r: Vec<ClassifiedInvariant>)
    ensures
        r.deep_view() == all_invariants(spec.deep_view()),
{
    let mut out: Vec<ClassifiedInvariant> = Vec::new();
    let ghost model = spec.deep_view();
    let ghost own = module_invariants(model);
    assert(out.deep_view() =~= own.take(0));
    let mut i: usize = 0;
    while i < spec.invariants.len()
        invariant
            i <= spec.invariants@.len(),
            model == spec.deep_view(),
            own == module_invariants(model),
            out.deep_view() == own.take(i as int),
        decreases spec.invariants@.len() - i,
    {
        assert(model.invariants[i as int] == spec.invariants@[i as int]@);
        append_item(&mut out, make_classified(spec, spec.invariants[i].clone()));
        assert(own.take(i + 1) =~= own.take(i as int).push(own[i as int]));
        i += 1;
    }
    assert(own.take(own.len() as int) =~= own);
    assert(own + Seq::empty() =~= own);
    let mut k: usize = 0;
    while k < spec.exposes.len()
        invariant
            k <= spec.exposes.deep_view().len(),
            model == spec.deep_view(),
            own == module_invariants(model),
            out.deep_view() == own + entities_invariants(model, k as int),
        decreases spec.exposes.deep_view().len() - k,
    {
        let name = spec.exposes.key(k);
        let entity = spec.exposes.value(k);
        let ghost before = entities_invariants(model, k as int);
        let is_type = match &entity.kind {
            Some(kind) => text::same(kind.as_str(), "type"),
            None => false,
        };
        if !is_type {
            add_clauses(spec, name, ": requires ", &entity.requires, &mut out);
            add_clauses(spec, name, ": ensures ", &entity.ensures, &mut out);
        }
        assert(out.deep_view() =~= own + (before + entity_invariants(
            model,
            model.exposes[k as int],
        )));
        k += 1;
    }
    out
}

// ─── Static checks ────────────────────────────────────────────────────────────

/// Where a scan for test modules stands: whether it is inside one, how many braces are open,
/// how many were when the test module began, and what was kept.
#[verifier::ext_equal]
pub struct TestScan {
    pub inside: bool,
    pub depth: int,
    pub start: int,
    pub kept: Seq<char>,
}

/// The scan behind the first `k` characters of a line.
pub open spec fn scan_braces(scan: TestScan, s: Seq<char>, k: int) -> TestScan
    decreases k,
{
    if k <= 0 || k > s.len() {
        scan
    } else {
        let before = scan_braces(scan, s, k - 1);
        if s[k - 1] == '{' {
            TestScan { depth: before.depth + 1, ..before }
        } else if s[k - 1] == '}' {
            TestScan {
                depth: before.depth - 1,
                inside: before.inside && before.depth - 1 > before.start,
                ..before
            }
        } else {
            before
        }
    }
}

/// A line without the contents of its string literals, and whether a literal is open behind
/// it, for the first `k` characters.
pub open spec fn literals_stripped(s: Seq<char>, k: int) -> (Seq<char>, bool)
    decreases k,
{
    if k <= 0 || k > s.len() {
        (Seq::empty(), false)
    } else {
        let (out, open) = literals_stripped(s, k - 1);
        let before = if k >= 2 {
            s[k - 2]
        } else {
            '\0'
        };
        if s[k - 1] == '"' && before != '\\' {
            (out.push(s[k - 1]), !open)
        } else if open {
            (out, open)
        } else {
            (out.push(s[k - 1]), open)
        }
    }
}

pub open spec fn without_literals(s: Seq<char>) -> Seq<char> {
    literals_stripped(s, s.len() as int).0
}

/// What is kept of a line: the line itself, or its trimmed text without the contents of
/// string literals.
pub open spec fn kept_line(line: Seq<char>, whole: bool) -> Seq<char> {
    if whole {
        line
    } else {
        without_literals(text::trim(line))
    }
}

/// The scan where a line begins. A test module begins at its attribute.
pub open spec fn scan_begun(scan: TestScan, t: Seq<char>) -> TestScan {
    if !scan.inside && text::contains(t, "#[cfg(test)]"@) {
        TestScan { inside: true, start: scan.depth, ..scan }
    } else {
        scan
    }
}

/// The scan behind a line. A test module ends where its braces are closed, or at the semicolon
/// that ends a line, if it has none. The lines on which it begins and ends belong to it.
pub open spec fn scan_line(scan: TestScan, line: Seq<char>, whole: bool) -> TestScan {
    let t = text::trim(line);
    let begun = scan_begun(scan, t);
    let swept = scan_braces(begun, t, t.len() as int);
    let ends = t.len() > 0 && t.last() == ';' && swept.depth <= swept.start;
    let after = TestScan { inside: swept.inside && !ends, ..swept };
    if begun.inside || after.inside {
        after
    } else {
        TestScan { kept: after.kept + kept_line(line, whole) + "\n"@, ..after }
    }
}

/// The scan behind the first `k` lines.
pub open spec fn scan_lines(lines: Seq<Seq<char>>, k: int, whole: bool) -> TestScan
    decreases k,
{
    if k <= 0 || k > lines.len() {
        TestScan { inside: false, depth: 0, start: 0, kept: Seq::empty() }
    } else {
        scan_line(scan_lines(lines, k - 1, whole), lines[k - 1], whole)
    }
}

/// The lines of a source text outside test modules.
pub open spec fn without_tests(source: Seq<char>, whole: bool) -> Seq<char> {
    let lines = text::lines(source);
    scan_lines(lines, lines.len() as int, whole).kept
}

fn strip_string_literals(line: &[char]) -> (r: String)
    ensures
        r@ == without_literals(line@),
{
    let mut out: String = String::new();
    let mut open: bool = false;
    let mut before: char = '\0';
    let mut i: usize = 0;
    while i < line.len()
        invariant
            i <= line@.len(),
            before == (if i > 0 {
                line@[i - 1]
            } else {
                '\0'
            }),
            (out@, open) == literals_stripped(line@, i as int),
        decreases line@.len() - i,
    {
        let c = line[i];
        if c == '"' && before != '\\' {
            open = !open;
            out.push(c);
        } else if !open {
            out.push(c);
        }
        before = c;
        i += 1;
    }
    out
}

fn strip_test_modules(source: &str, whole: bool) -> (r: String)
    ensures
        r@ == without_tests(source@, whole),
{
    let lines = text::lines_of(source);
    let ghost all = lines.deep_view();
    proof {
        text::lemma_lines_total(source@);
    }
    let chars = text::chars_of(source);
    let length: usize = chars.len();
    let mut kept: String = String::new();
    let mut inside: bool = false;
    let mut depth: i128 = 0;
    let mut start: i128 = 0;
    let mut i: usize = 0;
    assert(text::total_len(all.take(0)) == 0);
    while i < lines.len()
        invariant
            i <= lines@.len(),
            all == lines.deep_view(),
            text::total_len(all) <= length,
            -text::total_len(all.take(i as int)) <= depth <= text::total_len(all.take(i as int)),
            scan_lines(all, i as int, whole) == (TestScan {
                inside,
                depth: depth as int,
                start: start as int,
                kept: kept@,
            }),
        decreases lines@.len() - i,
    {
        let line = text::chars_of(lines[i].as_str());
        let trimmed = text::trim_chars(line.as_slice());
        let ghost before = scan_lines(all, i as int, whole);
        let ghost used = text::total_len(all.take(i as int));
        proof {
            assert(all[i as int] == lines@[i as int]@);
            text::lemma_total_len_prefix(all, i as int);
            text::lemma_trim_len(line@);
        }
        if !inside && text::chars_contain(trimmed, "#[cfg(test)]") {
            inside = true;
            start = depth;
        }
        let ghost begun = scan_begun(before, trimmed@);
        let was_inside: bool = inside;
        let mut j: usize = 0;
        while j < trimmed.len()
            invariant
                j <= trimmed@.len(),
                used + trimmed@.len() <= length,
                -(used + j) <= depth <= used + j,
                begun.kept == kept@,
                scan_braces(begun, trimmed@, j as int) == (TestScan {
                    inside,
                    depth: depth as int,
                    start: start as int,
                    kept: kept@,
                }),
            decreases trimmed@.len() - j,
        {
            let c = trimmed[j];
            if c == '{' {
                depth += 1;
            } else if c == '}' {
                depth -= 1;
                if inside && depth <= start {
                    inside = false;
                }
            }
            j += 1;
        }
        if trimmed.len() > 0 && trimmed[trimmed.len() - 1] == ';' && depth <= start {
            inside = false;
        }
        if !was_inside && !inside {
            if whole {
                kept.append(lines[i].as_str());
            } else {
                let stripped = strip_string_literals(trimmed);
                kept.append(stripped.as_str());
            }
            kept.append("\n");
        }
        i += 1;
    }
    kept
}

/// Strips test modules from a source text.
pub fn strip_tests(source: &str) -> (r: String)
    ensures
        r@ == without_tests(source@, true),
{
    strip_test_modules(source, true)
}

/// Whether a line looks for patterns in text, or is a comment, and so holds no such pattern
/// itself.
pub open spec fn is_checking_line(line: Seq<char>) -> bool {
    let t = text::trim(line);
    ||| text::contains(t, ".contains(\""@)
    ||| text::contains(t, ".contains(&\""@)
    ||| text::contains(t, "lower.contains"@)
    ||| text::starts_with(t, "//"@)
}

/// The first `k` lines without those that look for patterns.
pub open spec fn working_lines(lines: Seq<Seq<char>>, k: int) -> Seq<char>
    decreases k,
{
    if k <= 0 || k > lines.len() {
        Seq::empty()
    } else if is_checking_line(lines[k - 1]) {
        working_lines(lines, k - 1)
    } else {
        working_lines(lines, k - 1) + lines[k - 1] + "\n"@
    }
}

/// What is left of a source text without tests, string literals, comments and lines that
/// look for patterns.
pub open spec fn working_code(source: Seq<char>) -> Seq<char> {
    let lines = text::lines(without_tests(source, false));
    working_lines(lines, lines.len() as int)
}

fn strip_tests_strings_and_checks(source: &str) -> (r: String)
    ensures
        r@ == working_code(source@),
{
    let cleaned = strip_test_modules(source, false);
    let lines = text::lines_of(cleaned.as_str());
    let mut out: String = String::new();
    let mut i: usize = 0;
    while i < lines.len()
        invariant
            i <= lines@.len(),
            out@ == working_lines(lines.deep_view(), i as int),
        decreases lines@.len() - i,
    {
        assert(lines.deep_view()[i as int] == lines@[i as int]@);
        let line = text::chars_of(lines[i].as_str());
        let t = text::trim_chars(line.as_slice());
        let checking = text::chars_contain(t, ".contains(\"") || text::chars_contain(
            t,
            ".contains(&\"",
        ) || text::chars_contain(t, "lower.contains") || text::chars_start_with(t, "//");
        if !checking {
            out.append(lines[i].as_str());
            out.append("\n");
        }
        i += 1;
    }
    out
}

/// Whether `unsafe` stands at a position, and not as a part of an identifier.
pub open spec fn unsafe_at(s: Seq<char>, p: int) -> bool {
    &&& text::occurs_at(s, "unsafe"@, p)
    &&& p > 0 ==> !text::is_word(s[p - 1])
    &&& p + 6 < s.len() ==> !text::is_word(s[p + 6])
}

pub open spec fn line_has_unsafe(line: Seq<char>) -> bool {
    exists|p: int| #[trigger] unsafe_at(text::trim(line), p)
}

/// Whether `unsafe` is used as a keyword in some line.
pub open spec fn has_unsafe(source: Seq<char>) -> bool {
    exists|i: int|
        0 <= i < text::lines(source).len() && line_has_unsafe(#[trigger] text::lines(source)[i])
}

fn find_unsafe(s: &[char]) -> (b: bool)
    ensures
        b == (exists|p: int| #[trigger] unsafe_at(s@, p)),
{
    proof {
        reveal_strlit("unsafe");
    }
    let n: usize = s.len();
    let mut p: usize = 0;
    while p < n
        invariant
            p <= n == s@.len(),
            "unsafe"@.len() == 6,
            forall|q: int| 0 <= q < p ==> !#[trigger] unsafe_at(s@, q),
        decreases n - p,
    {
        if text::literal_at(s, "unsafe", p) {
            let before = p == 0 || !text::word_char(s[p - 1]);
            let after = p + 6 >= n || !text::word_char(s[p + 6]);
            if before && after {
                assert(unsafe_at(s@, p as int));
                return true;
            }
        }
        p += 1;
    }
    assert forall|q: int| !#[trigger] unsafe_at(s@, q) by {
        if 0 <= q < s@.len() {
        }
    }
    false
}

/// Whether `unsafe` is used as a keyword in a source text.
pub fn has_unsafe_keyword(source: &str) -> (b: bool)
    ensures
        b == has_unsafe(source@),
{
    let lines = text::lines_of(source);
    let ghost all = text::lines(source@);
    let mut i: usize = 0;
    while i < lines.len()
        invariant
            i <= lines@.len(),
            all == lines.deep_view(),
            all == text::lines(source@),
            forall|j: int| 0 <= j < i ==> !line_has_unsafe(#[trigger] all[j]),
        decreases lines@.len() - i,
    {
        assert(all[i as int] == lines@[i as int]@);
        let line = text::chars_of(lines[i].as_str());
        if find_unsafe(text::trim_chars(line.as_slice())) {
            assert(line_has_unsafe(text::lines(source@)[i as int]));
            return true;
        }
        i += 1;
    }
    false
}

pub open spec fn static_result(satisfies: bool, bad: Seq<char>, good: Seq<char>) ->
    InvariantResultModel {
    InvariantResultModel {
        satisfies,
        reasoning: if satisfies {
            good
        } else {
            bad
        },
        tier: "static"@,
    }
}

pub open spec fn has_panics(code: Seq<char>) -> bool {
    text::contains(code, "panic!("@) || text::contains(code, ".unwrap()"@) || text::contains(
        code,
        ".expect("@,
    )
}

pub open spec fn panics_result(source: Seq<char>) -> InvariantResultModel {
    static_result(
        !has_panics(working_code(source)),
        "Found panic!(), unwrap(), or expect() outside test code"@,
        "No panic paths found outside test code"@,
    )
}

pub open spec fn unwrap_result(source: Seq<char>) -> InvariantResultModel {
    static_result(
        !text::contains(working_code(source), ".unwrap()"@),
        "Found .unwrap() outside test code"@,
        "No .unwrap() found outside test code"@,
    )
}

pub open spec fn unsafe_result(source: Seq<char>) -> InvariantResultModel {
    static_result(
        !has_unsafe(working_code(source)),
        "Found unsafe block or function outside test code"@,
        "No unsafe code found outside test code"@,
    )
}

fn make_static_result(satisfies: bool, bad: &str, good: &str) -> (r: InvariantResult)
    ensures
        r.deep_view() == static_result(satisfies, bad@, good@),
{
    InvariantResult {
        satisfies,
        reasoning: if satisfies {
            good.to_owned()
        } else {
            bad.to_owned()
        },
        tier: "static".to_owned(),
    }
}

/// Checks that a source text holds no panics outside tests.
pub fn check_no_panics(source: &str) -> (r: InvariantResult)
    ensures
        r.deep_view() == panics_result(source@),
{
    let code = strip_tests_strings_and_checks(source);
    let c = code.as_str();
    let found = text::text_contains(c, "panic!(") || text::text_contains(c, ".unwrap()")
        || text::text_contains(c, ".expect(");
    make_static_result(
        !found,
        "Found panic!(), unwrap(), or expect() outside test code",
        "No panic paths found outside test code",
    )
}

/// Checks that a source text holds no `unwrap` outside tests.
pub fn check_no_unwrap(source: &str) -> (r: InvariantResult)
    ensures
        r.deep_view() == unwrap_result(source@),
{
    let code = strip_tests_strings_and_checks(source);
    let found = text::text_contains(code.as_str(), ".unwrap()");
    make_static_result(
        !found,
        "Found .unwrap() outside test code",
        "No .unwrap() found outside test code",
    )
}

/// Checks that a source text holds no unsafe code outside tests.
pub fn check_no_unsafe(source: &str) -> (r: InvariantResult)
    ensures
        r.deep_view() == unsafe_result(source@),
{
    let code = strip_tests_strings_and_checks(source);
    let found = has_unsafe_keyword(code.as_str());
    make_static_result(
        !found,
        "Found unsafe block or function outside test code",
        "No unsafe code found outside test code",
    )
}

/// What looking for patterns says of an invariant, where there is a pattern for it.
pub open spec fn static_check(claim: Seq<char>, source: Seq<char>) -> Option<
    InvariantResultModel,
> {
    let lower = text::lowercase(claim);
    if forbids_panics(lower) {
        Some(panics_result(source))
    } else if forbids_unwrap(lower) {
        Some(unwrap_result(source))
    } else if forbids_unsafe(lower) {
        Some(unsafe_result(source))
    } else {
        None
    }
}

/// Checks an invariant by looking for patterns, where there is one for it.
pub fn check_static_invariant(claim: &ClassifiedInvariant, source_code: &str) -> (r: Option<
    InvariantResult,
>)
    ensures
        r.deep_view() == static_check(claim.text@, source_code@),
{
    let lower = claim.text.as_str().to_lowercase();
    let l = lower.as_str();
    if no_panics_wanted(l) {
        Some(check_no_panics(source_code))
    } else if no_unwrap_wanted(l) {
        Some(check_no_unwrap(source_code))
    } else if no_unsafe_wanted(l) {
        Some(check_no_unsafe(source_code))
    } else {
        None
    }
}

// ─── Laws ─────────────────────────────────────────────────────────────────────

/// All lines, each with its end.
pub open spec fn ended_lines(lines: Seq<Seq<char>>, k: int) -> Seq<char>
    decreases k,
{
    if k <= 0 || k > lines.len() {
        Seq::empty()
    } else {
        ended_lines(lines, k - 1) + lines[k - 1] + "\n"@
    }
}

proof fn lemma_braces_keep_outside(scan: TestScan, s: Seq<char>, k: int)
    requires
        !scan.inside,
    ensures
        !scan_braces(scan, s, k).inside,
        scan_braces(scan, s, k).kept == scan.kept,
    decreases k,
{
    if 0 < k <= s.len() {
        lemma_braces_keep_outside(scan, s, k - 1);
    }
}

proof fn lemma_lines_stay(lines: Seq<Seq<char>>, k: int)
    requires
        forall|i: int|
            0 <= i < lines.len() ==> !text::contains(
                text::trim(#[trigger] lines[i]),
                "#[cfg(test)]"@,
            ),
    ensures
        !scan_lines(lines, k, true).inside,
        scan_lines(lines, k, true).kept == ended_lines(lines, k),
    decreases k,
{
    if 0 < k <= lines.len() {
        lemma_lines_stay(lines, k - 1);
        let t = text::trim(lines[k - 1]);
        assert(!text::contains(text::trim(lines[k - 1]), "#[cfg(test)]"@));
        lemma_braces_keep_outside(scan_lines(lines, k - 1, true), t, t.len() as int);
    }
}

/// A source text without the attribute of test modules keeps all its lines.
pub proof fn sources_without_tests_stay(source: Seq<char>)
    requires
        forall|i: int|
            0 <= i < text::lines(source).len() ==> !text::contains(
                text::trim(#[trigger] text::lines(source)[i]),
                "#[cfg(test)]"@,
            ),
    ensures
        without_tests(source, true) == ended_lines(
            text::lines(source),
            text::lines(source).len() as int,
        ),
{
    lemma_lines_stay(text::lines(source), text::lines(source).len() as int);
}

/// What a function requires or ensures is never checked by looking for patterns, whatever
/// words it holds.
pub proof fn function_clauses_are_behavioral(name: Seq<char>, clause: Seq<char>)
    ensures
        tier_of(name + ": requires "@ + clause) == InvariantTier::Behavioral,
        tier_of(name + ": ensures "@ + clause) == InvariantTier::Behavioral,
{
    let r = name + ": requires "@ + clause;
    let e = name + ": ensures "@ + clause;
    assert(r.subrange(name.len() as int, (name.len() + ": requires "@.len()) as int) =~= ": requires "@);
    assert(text::occurs_at(r, ": requires "@, name.len() as int));
    assert(e.subrange(name.len() as int, (name.len() + ": ensures "@.len()) as int) =~= ": ensures "@);
    assert(text::occurs_at(e, ": ensures "@, name.len() as int));
}

/// Only an invariant of the module as a whole can be checked by looking for patterns: every
/// other one that is collected is behavioral.
pub proof fn only_module_invariants_are_static(spec: ModuleSpecModel, i: int)
    requires
        0 <= i < all_invariants(spec).len(),
        all_invariants(spec)[i].tier == InvariantTier::Static,
    ensures
        i < spec.invariants.len(),
{
    if i >= spec.invariants.len() {
        lemma_entities_behavioral(
            spec,
            spec.exposes.len() as int,
            i - spec.invariants.len(),
        );
    }
}

proof fn lemma_entities_behavioral(spec: ModuleSpecModel, k: int, i: int)
    requires
        0 <= k <= spec.exposes.len(),
        0 <= i < entities_invariants(spec, k).len(),
    ensures
        entities_invariants(spec, k)[i].tier == InvariantTier::Behavioral,
    decreases k,
{
    if k > 0 {
        let before = entities_invariants(spec, k - 1);
        if i < before.len() {
            lemma_entities_behavioral(spec, k - 1, i);
        } else {
            let entry = spec.exposes[k - 1];
            let n = entry.1.requires.len() as int;
            let j = i - before.len();
            if j < n {
                function_clauses_are_behavioral(entry.0, entry.1.requires[j]);
            } else {
                function_clauses_are_behavioral(entry.0, entry.1.ensures[j - n]);
            }
        }
    }
}

} // verus!

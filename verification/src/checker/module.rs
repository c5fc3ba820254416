//! Checking a module as a whole.
use vstd::prelude::*;

use super::constraints::{
    check_type_constraints, constraints_plain, constraints_readable, entity_findings,
};
use super::protocol::{check_protocol, lemma_nothing_collected, protocol_findings};
use super::{
    architectural_findings, check_dependencies, check_events, check_exposes, check_forbidden_deps,
    collected, conflict_finding, conflict_findings, dependency_findings, error_finding,
    event_findings, expose_findings, forbidden_findings, foreign_state_findings, make_result,
    missing_findings, owned_elsewhere, plain_rules_are_evaluable, result_of, rules_evaluable,
    state_findings, CheckResult, CheckResultModel, ConstraintKind, ConstraintResult,
    ConstraintResultModel, ConstraintSeverity, SpecChecker, SpecCheckerModel, VerificationTier,
};
use crate::data::{key_index, lemma_key_index, lookup};
use crate::extractors::{
    extractor_of, get_extractor, ExtractedModule, ExtractedModuleModel, Extractor, SourceFile,
    SourceFileModel,
};
use crate::rules::all_plain;
use crate::spec::{
    exposed_function, exposed_functions, spec_of_module, ModuleSpec, ModuleSpecModel,
};
use crate::text;

verus! {

/// Everything that is found of a module.
pub open spec fn module_findings(
    c: SpecCheckerModel,
    spec: ModuleSpecModel,
    m: ExtractedModuleModel,
) -> Seq<ConstraintResultModel> {
    collected(spec.exposes, expose_findings(m)) + dependency_findings(spec, m) + collected(
        m.imports,
        forbidden_findings(spec),
    ) + collected(spec.depends_on, architectural_findings(c, spec)) + event_findings(spec, m)
        + collected(spec.exposes, entity_findings(m)) + state_findings(c, spec, m)
        + protocol_findings(spec, m)
}

/// Whether a module can be checked: all rules can be evaluated on its dependencies, and all
/// its type formulas have a reading.
pub open spec fn checkable(c: SpecCheckerModel, spec: ModuleSpecModel, m: ExtractedModuleModel) ->
    bool {
    rules_evaluable(c, spec) && constraints_readable(spec, m)
}

/// Whether the rules hold only ASCII characters and no quote marks, and the formulas of a spec
/// no `<`. Then the module can be checked, whatever it holds.
pub open spec fn plain_checks(c: SpecCheckerModel, spec: ModuleSpecModel) -> bool {
    all_plain(c.rules) && constraints_plain(spec)
}

impl SpecChecker {
    /// Checks a spec against what was extracted from the source code, or says that the module
    /// cannot be checked.
    pub fn checked_check_module(&self, spec: &ModuleSpec, extracted: &ExtractedModule) -> (r:
        Option<CheckResult>)
        ensures
            match r {
                Some(result) => checkable(self.deep_view(), spec.deep_view(), extracted.deep_view())
                    && result.deep_view() == result_of(
                    module_findings(self.deep_view(), spec.deep_view(), extracted.deep_view()),
                ),
                None => !checkable(self.deep_view(), spec.deep_view(), extracted.deep_view())
                    && !plain_checks(self.deep_view(), spec.deep_view()),
            },
    {
        let mut out: Vec<ConstraintResult> = Vec::new();
        let ghost c = self.deep_view();
        let ghost s = spec.deep_view();
        let ghost m = extracted.deep_view();
        check_exposes(spec, extracted, &mut out);
        check_dependencies(spec, extracted, &mut out);
        check_forbidden_deps(spec, extracted, &mut out);
        let evaluable = self.check_architectural_constraints(spec, &mut out);
        if !evaluable {
            proof {
                if all_plain(c.rules) {
                    plain_rules_are_evaluable(c, s);
                }
            }
            return None;
        }
        check_events(spec, extracted, &mut out);
        let readable = check_type_constraints(spec, extracted, &mut out);
        if !readable {
            return None;
        }
        self.check_state_constraints(spec, extracted, &mut out);
        check_protocol(spec, extracted, &mut out);
        assert(out.deep_view() =~= module_findings(c, s, m));
        Some(make_result(out))
    }

    /// Checks a spec against what was extracted from the source code.
    pub fn check_module(&self, spec: &ModuleSpec, extracted: &ExtractedModule) -> (r: CheckResult)
        requires
            plain_checks(self.deep_view(), spec.deep_view()) || checkable(
                self.deep_view(),
                spec.deep_view(),
                extracted.deep_view(),
            ),
        ensures
            r.deep_view() == result_of(
                module_findings(self.deep_view(), spec.deep_view(), extracted.deep_view()),
            ),
    {
        match self.checked_check_module(spec, extracted) {
            Some(r) => r,
            None => Default::default(),
        }
    }
}

// ─── From the source file on ──────────────────────────────────────────────────

/// What became of the search for a module's source file.
#[derive(Debug)]
pub enum SourceLookup {
    NotFound,
    /// The file at a path could not be read
    Unreadable { path: String, error: String },
    Read(SourceFile),
}

/// What a [`SourceLookup`] holds.
#[verifier::ext_equal]
pub enum SourceLookupModel {
    NotFound,
    Unreadable { path: Seq<char>, error: Seq<char> },
    Read(SourceFileModel),
}

impl DeepView for SourceLookup {
    type V = SourceLookupModel;

    open spec fn deep_view(&self) -> SourceLookupModel {
        match self {
            SourceLookup::NotFound => SourceLookupModel::NotFound,
            SourceLookup::Unreadable { path, error } => SourceLookupModel::Unreadable {
                path: path@,
                error: error@,
            },
            SourceLookup::Read(file) => SourceLookupModel::Read(file.deep_view()),
        }
    }
}

/// The language of a module, or a word that no language has.
pub open spec fn language_of(spec: ModuleSpecModel) -> Seq<char> {
    match spec.language {
        Some(l) => l,
        None => "unknown"@,
    }
}

/// The result of an extraction that failed.
pub open spec fn failed_extraction(path: Seq<char>, error: Seq<char>) -> CheckResultModel {
    result_of(
        seq![
            error_finding(
                ConstraintKind::Structure,
                "Failed to extract from "@ + path + ": "@ + error,
            ),
        ],
    )
}

/// What checking a module comes to. A module whose source is missing has an error; one in a
/// language without an extractor has a warning, and is not checked. None where the source
/// has no reading, or the module cannot be checked.
pub open spec fn check_outcome(
    c: SpecCheckerModel,
    spec: ModuleSpecModel,
    source: SourceLookupModel,
) -> Option<CheckResultModel> {
    match source {
        SourceLookupModel::NotFound => Some(
            result_of(
                seq![
                    error_finding(
                        ConstraintKind::Structure,
                        "Could not find source file for module '"@ + spec.module
                            + "'. Set source_path in spec."@,
                    ),
                ],
            ),
        ),
        _ => match extractor_of(language_of(spec)) {
            None => Some(
                CheckResultModel {
                    errors: Seq::empty(),
                    warnings: seq![
                        "No extractor for language '"@ + language_of(spec)
                            + "'. Skipping implementation checks."@,
                    ],
                    constraint_results: Seq::empty(),
                },
            ),
            Some(x) => match source {
                SourceLookupModel::Read(file) => match x.extraction(file) {
                    Some(Ok(m)) => if checkable(c, spec, m) {
                        Some(result_of(module_findings(c, spec, m)))
                    } else {
                        None
                    },
                    Some(Err(e)) => Some(failed_extraction(file.path, e)),
                    None => None,
                },
                SourceLookupModel::Unreadable { path, error } => Some(
                    failed_extraction(path, error),
                ),
                SourceLookupModel::NotFound => None,
            },
        },
    }
}

/// Whether a source file, if it was read, holds only ASCII characters.
pub open spec fn plain_source(source: SourceLookup) -> bool {
    source matches SourceLookup::Read(file) ==> text::is_ascii(file.content@)
}

fn one_error(message: String) -> (r: CheckResult)
    ensures
        r.deep_view() == result_of(seq![error_finding(ConstraintKind::Structure, message@)]),
{
    let ghost model = error_finding(ConstraintKind::Structure, message@);
    let findings: Vec<ConstraintResult> = vec![
        ConstraintResult {
            kind: ConstraintKind::Structure,
            tier: VerificationTier::Syntactic,
            severity: ConstraintSeverity::Error,
            message,
        },
    ];
    assert(findings.deep_view() =~= seq![model]);
    make_result(findings)
}

fn extraction_error(path: &str, error: &str) -> (r: CheckResult)
    ensures
        r.deep_view() == failed_extraction(path@, error@),
{
    let mut message = "Failed to extract from ".to_owned();
    message.append(path);
    message.append(": ");
    message.append(error);
    one_error(message)
}

impl SpecChecker {
    /// Checks a spec against its source file, or says that this cannot be done.
    pub fn checked_check(&self, spec: &ModuleSpec, source: &SourceLookup) -> (r: Option<
        CheckResult,
    >)
        ensures
            r.deep_view() == check_outcome(self.deep_view(), spec.deep_view(), source.deep_view()),
            plain_checks(self.deep_view(), spec.deep_view()) && plain_source(*source) ==> r is Some,
    {
        match source {
            SourceLookup::NotFound => {
                return Some(
                    one_error(
                        in_between(
                            "Could not find source file for module '",
                            spec.module.as_str(),
                            "'. Set source_path in spec.",
                        ),
                    ),
                );
            },
            _ => {},
        }
        let language = match &spec.language {
            Some(l) => l.as_str(),
            None => "unknown",
        };
        let extractor = match get_extractor(language) {
            Ok(x) => x,
            Err(_) => {
                let mut result: CheckResult = Default::default();
                result.warning(
                    in_between(
                        "No extractor for language '",
                        language,
                        "'. Skipping implementation checks.",
                    ),
                );
                assert(result.deep_view().warnings =~= seq![
                    "No extractor for language '"@ + language@
                        + "'. Skipping implementation checks."@,
                ]);
                return Some(result);
            },
        };
        match source {
            SourceLookup::Read(file) => match extractor.checked_extract(file) {
                Some(Ok(m)) => self.checked_check_module(spec, &m),
                Some(Err(e)) => Some(extraction_error(file.path.as_str(), e.as_str())),
                None => None,
            },
            SourceLookup::Unreadable { path, error } => Some(
                extraction_error(path.as_str(), error.as_str()),
            ),
            SourceLookup::NotFound => None,
        }
    }

    /// Checks a spec against its source file. This can always be done where the source holds
    /// only ASCII characters, and rules and formulas are plain.
    pub fn check(&self, spec: &ModuleSpec, source: &SourceLookup) -> (r: CheckResult)
        requires
            (plain_checks(self.deep_view(), spec.deep_view()) && plain_source(*source))
                || check_outcome(self.deep_view(), spec.deep_view(), source.deep_view()) is Some,
        ensures
            check_outcome(self.deep_view(), spec.deep_view(), source.deep_view()) == Some(
                r.deep_view(),
            ),
    {
        match self.checked_check(spec, source) {
            Some(r) => r,
            None => Default::default(),
        }
    }
}

// ─── Where the source lies ────────────────────────────────────────────────────

/// Where the source of a module may lie, from the source root on: where the spec says, or
/// else in the usual places of its language, in order.
pub open spec fn source_places(spec: ModuleSpecModel) -> Seq<Seq<char>> {
    match spec.source_path {
        Some(p) => seq![p],
        None => if spec.language == Some("solidity"@) {
            seq![
                "contracts/"@ + spec.module + ".sol"@,
                "src/"@ + spec.module + ".sol"@,
                spec.module + ".sol"@,
            ]
        } else if spec.language == Some("rust"@) {
            seq![
                "src/"@ + text::lowercase(spec.module) + ".rs"@,
                "src/lib.rs"@,
                "src/main.rs"@,
            ]
        } else if spec.language == Some("typescript"@) {
            seq!["src/"@ + spec.module + ".ts"@, spec.module + ".ts"@]
        } else {
            Seq::empty()
        },
    }
}

fn in_between(before: &str, name: &str, after: &str) -> (r: String)
    ensures
        r@ == before@ + name@ + after@,
{
    let mut out = before.to_owned();
    out.append(name);
    out.append(after);
    out
}

/// Where the source of a module may lie: the first of these that exists is its source.
pub fn source_candidates(spec: &ModuleSpec) -> (r: Vec<String>)
    ensures
        r.deep_view() == source_places(spec.deep_view()),
{
    let name = spec.module.as_str();
    let r: Vec<String> = match &spec.source_path {
        Some(p) => vec![p.clone()],
        None => {
            if super::is_kind(&spec.language, "solidity") {
                let mut plain = name.to_owned();
                plain.append(".sol");
                vec![
                    in_between("contracts/", name, ".sol"),
                    in_between("src/", name, ".sol"),
                    plain,
                ]
            } else if super::is_kind(&spec.language, "rust") {
                vec![
                    in_between("src/", name.to_lowercase().as_str(), ".rs"),
                    "src/lib.rs".to_owned(),
                    "src/main.rs".to_owned(),
                ]
            } else if super::is_kind(&spec.language, "typescript") {
                let mut plain = name.to_owned();
                plain.append(".ts");
                vec![in_between("src/", name, ".ts"), plain]
            } else {
                Vec::new()
            }
        },
    };
    assert(r.deep_view() =~= source_places(spec.deep_view()));
    r
}

// ─── Laws ─────────────────────────────────────────────────────────────────────

/// Every finding is either an error or a warning, and its message stands in that list.
pub proof fn findings_are_errors_or_warnings(findings: Seq<ConstraintResultModel>)
    ensures
        result_of(findings).errors.len() + result_of(findings).warnings.len() == findings.len(),
        result_of(findings).errors.len() == 0 <==> (forall|i: int|
            0 <= i < findings.len() ==> (#[trigger] findings[i]).severity
                == ConstraintSeverity::Warning),
    decreases findings.len(),
{
    if findings.len() > 0 {
        let front = findings.drop_last();
        findings_are_errors_or_warnings(front);
        if result_of(findings).errors.len() == 0 {
            assert forall|i: int| 0 <= i < findings.len() implies (#[trigger] findings[i]).severity
                == ConstraintSeverity::Warning by {
                if i < front.len() {
                    assert(front[i].severity == ConstraintSeverity::Warning);
                }
            }
        } else {
            if findings.last().severity == ConstraintSeverity::Error {
                assert(findings[findings.len() - 1].severity == ConstraintSeverity::Error);
            } else {
                let i = choose|i: int|
                    0 <= i < front.len() && (#[trigger] front[i]).severity
                        != ConstraintSeverity::Warning;
                assert(findings[i] == front[i]);
            }
        }
    }
}

proof fn lemma_exposed(m: ExtractedModuleModel, n: int, i: int)
    requires
        0 <= n <= m.public_functions.len(),
        0 <= i < exposed_functions(m, n).len(),
    ensures
        ({
            let entry = exposed_functions(m, n)[i];
            &&& m.public_functions.contains(entry.0)
            &&& entry.1 == exposed_function(lookup(m.function_signatures, entry.0))
        }),
    decreases n,
{
    if n > 0 {
        let before = exposed_functions(m, n - 1);
        let name = m.public_functions[n - 1];
        lemma_key_index(before, name);
        let k = key_index(before, name);
        assert(m.public_functions.contains(name));
        if i < before.len() && i != k {
            lemma_exposed(m, n - 1, i);
        }
    }
}

/// A spec made from a module passes the check of that module: of its exposed functions, its
/// dependencies, events, state and protocol nothing is found, as long as no other module
/// claims the same state.
pub proof fn fresh_spec_has_no_findings(c: SpecCheckerModel, m: ExtractedModuleModel)
    requires
        forall|i: int|
            0 <= i < m.state_variables.len() ==> !owned_elsewhere(
                c.spec_map,
                #[trigger] m.state_variables[i],
                m.name,
            ),
    ensures
        checkable(c, spec_of_module(m), m),
        module_findings(c, spec_of_module(m), m) == Seq::<ConstraintResultModel>::empty(),
{
    let spec = spec_of_module(m);
    let n = m.public_functions.len() as int;
    reveal_strlit("type");
    reveal_strlit("variable");
    assert forall|i: int| 0 <= i < spec.exposes.len() implies expose_findings(m)(
        #[trigger] spec.exposes[i],
    ) == Seq::<ConstraintResultModel>::empty() by {
        lemma_exposed(m, n, i);
    }
    lemma_nothing_collected(spec.exposes, expose_findings(m));
    assert forall|i: int| 0 <= i < spec.exposes.len() implies entity_findings(m)(
        #[trigger] spec.exposes[i],
    ) == Seq::<ConstraintResultModel>::empty() by {
        lemma_exposed(m, n, i);
    }
    lemma_nothing_collected(spec.exposes, entity_findings(m));
    assert forall|i: int| 0 <= i < spec.exposes.len() implies super::constraints::entity_readable(
        #[trigger] spec.exposes[i],
        m,
    ) by {
        lemma_exposed(m, n, i);
    }
    assert forall|i: int| 0 <= i < m.imports.len() implies forbidden_findings(spec)(
        #[trigger] m.imports[i],
    ) == Seq::<ConstraintResultModel>::empty() by {
        assert(forbidden_findings(spec)(m.imports[i]) =~= Seq::empty());
    }
    lemma_nothing_collected(m.imports, forbidden_findings(spec));
    lemma_nothing_collected(spec.depends_on, architectural_findings(c, spec));
    let events = missing_findings(
        m.events,
        ConstraintKind::Event,
        ConstraintSeverity::Error,
        "Event '"@,
        "' is specified in emits but not found in implementation"@,
    );
    let unlisted_events = missing_findings(
        m.events,
        ConstraintKind::Event,
        ConstraintSeverity::Warning,
        "Event '"@,
        "' is defined in implementation but not in emits spec"@,
    );
    lemma_nothing_collected(m.events, events);
    lemma_nothing_collected(m.events, unlisted_events);
    assert(event_findings(spec, m) =~= Seq::empty());
    let states = missing_findings(
        m.state_variables,
        ConstraintKind::Structure,
        ConstraintSeverity::Error,
        "State variable '"@,
        "' is listed in owns_state but not found in implementation"@,
    );
    let unlisted_states = missing_findings(
        m.state_variables,
        ConstraintKind::Structure,
        ConstraintSeverity::Warning,
        "State variable '"@,
        "' exists in implementation but not listed in owns_state"@,
    );
    lemma_nothing_collected(m.state_variables, states);
    lemma_nothing_collected(m.state_variables, unlisted_states);
    lemma_nothing_collected(
        spec.reads_state,
        foreign_state_findings(c, spec, "reads_state '"@),
    );
    lemma_nothing_collected(spec.modifies, foreign_state_findings(c, spec, "modifies '"@));
    assert forall|i: int| 0 <= i < m.state_variables.len() implies conflict_findings(c, spec)(
        #[trigger] m.state_variables[i],
    ) == Seq::<ConstraintResultModel>::empty() by {
        let state = m.state_variables[i];
        assert(!owned_elsewhere(c.spec_map, state, m.name));
        assert forall|j: int| 0 <= j < c.spec_map.len() implies conflict_finding(spec, state)(
            #[trigger] c.spec_map[j],
        ) == Seq::<ConstraintResultModel>::empty() by {}
        lemma_nothing_collected(c.spec_map, conflict_finding(spec, state));
    }
    lemma_nothing_collected(m.state_variables, conflict_findings(c, spec));
    assert(state_findings(c, spec, m) =~= Seq::empty());
    assert(module_findings(c, spec, m) =~= Seq::empty());
}

/// State that two modules claim to own is an error of each of them.
pub proof fn shared_state_is_an_error(
    c: SpecCheckerModel,
    spec: ModuleSpecModel,
    m: ExtractedModuleModel,
    state: Seq<char>,
)
    requires
        spec.owns_state.contains(state),
        owned_elsewhere(c.spec_map, state, spec.module),
    ensures
        result_of(module_findings(c, spec, m)).errors.len() > 0,
{
    let f = conflict_findings(c, spec);
    let g = conflict_finding(spec, state);
    let k = choose|i: int|
        0 <= i < c.spec_map.len() && (#[trigger] c.spec_map[i]).1.module != spec.module
            && c.spec_map[i].1.owns_state.contains(state);
    lemma_collected_contains(c.spec_map, g, k, 0);
    let s = choose|i: int| 0 <= i < spec.owns_state.len() && spec.owns_state[i] == state;
    let inner = f(spec.owns_state[s]);
    assert(inner == collected(c.spec_map, g));
    let e = inner.index_of(g(c.spec_map[k])[0]);
    lemma_collected_contains(spec.owns_state, f, s, e);
    let finding = g(c.spec_map[k])[0];
    let conflicts = collected(spec.owns_state, f);
    assert(conflicts.contains(finding));
    let all = module_findings(c, spec, m);
    let before = collected(spec.exposes, expose_findings(m)) + dependency_findings(spec, m)
        + collected(m.imports, forbidden_findings(spec)) + collected(
        spec.depends_on,
        architectural_findings(c, spec),
    ) + event_findings(spec, m) + collected(spec.exposes, entity_findings(m));
    let states = state_findings(c, spec, m);
    let i = choose|i: int| 0 <= i < conflicts.len() && conflicts[i] == finding;
    let at = states.len() - conflicts.len() + i;
    assert(states[at] == finding);
    assert(all[before.len() + at] == finding);
    findings_are_errors_or_warnings(all);
}

proof fn lemma_collected_contains<T>(
    items: Seq<T>,
    f: spec_fn(T) -> Seq<ConstraintResultModel>,
    i: int,
    j: int,
)
    requires
        0 <= i < items.len(),
        0 <= j < f(items[i]).len(),
    ensures
        collected(items, f).contains(f(items[i])[j]),
    decreases items.len(),
{
    let front = collected(items.drop_last(), f);
    let last = f(items.last());
    let all = collected(items, f);
    if i == items.len() - 1 {
        assert(all[front.len() + j] == last[j]);
    } else {
        lemma_collected_contains(items.drop_last(), f, i, j);
        let x = f(items[i])[j];
        let k = choose|k: int| 0 <= k < front.len() && front[k] == x;
        assert(all[k] == x);
    }
}

} // verus!

//! Checking a module's spec against what was extracted from its source code.
pub mod composition;
pub mod constraints;
pub mod module;
pub mod outcome;
pub mod project;
pub mod protocol;
pub mod verdict;
pub mod wording;

use vstd::prelude::*;

use crate::data::{append_item, has_key, list_contains, lookup, with_entry, Duplicate, StringMap};
use crate::extractors::{ExtractedModule, ExtractedModuleModel};
use crate::rules::{
    all_plain, builtin_rule_models, builtin_rules, checked_check_dependency, configured_layers,
    plain_rules_can_be_checked, violations_of, EvalContextModel, Rule, RuleModel, RuleViolation,
    RuleViolationModel, RulesConfig, RulesConfigModel, Severity,
};
use crate::spec::{
    builtin_layers, ExposeSpec, ExposeSpecModel, LayerConfig, ModuleSpec, ModuleSpecModel,
};
use crate::text;

verus! {

// ─── Findings ─────────────────────────────────────────────────────────────────

/// The kind of a constraint.
#[derive(Debug, Clone, Copy, PartialEq, Eq, Structural)]
pub enum ConstraintKind {
    /// Whether entities exist and are visible
    Structure,
    /// Which dependencies are allowed and forbidden
    Dependency,
    /// Layers, contexts and stability
    Architectural,
    /// Whether events exist and are listed
    Event,
    /// Type formulas
    TypeConstraint,
    /// State machines and call sequences
    Protocol,
}

impl DeepView for ConstraintKind {
    type V = ConstraintKind;

    open spec fn deep_view(&self) -> ConstraintKind {
        *self
    }
}

pub open spec fn constraint_kind_text(kind: ConstraintKind) -> Seq<char> {
    match kind {
        ConstraintKind::Structure => "structural"@,
        ConstraintKind::Dependency => "dependency"@,
        ConstraintKind::Architectural => "architectural"@,
        ConstraintKind::Event => "event"@,
        ConstraintKind::TypeConstraint => "type-constraint"@,
        ConstraintKind::Protocol => "protocol"@,
    }
}

impl ConstraintKind {
    pub fn to_string(&self) -> (r: String)
        ensures
            r@ == constraint_kind_text(*self),
    {
        match self {
            ConstraintKind::Structure => "structural".to_owned(),
            ConstraintKind::Dependency => "dependency".to_owned(),
            ConstraintKind::Architectural => "architectural".to_owned(),
            ConstraintKind::Event => "event".to_owned(),
            ConstraintKind::TypeConstraint => "type-constraint".to_owned(),
            ConstraintKind::Protocol => "protocol".to_owned(),
        }
    }
}

/// How a constraint was decided.
#[derive(Debug, Clone, Copy, PartialEq, Eq, Structural)]
pub enum VerificationTier {
    /// By direct comparison
    Syntactic,
    /// By evaluating rules
    RulesEngine,
    /// By evaluating type formulas
    TypeFormula,
    /// By an SMT solver
    Smt,
}

impl DeepView for VerificationTier {
    type V = VerificationTier;

    open spec fn deep_view(&self) -> VerificationTier {
        *self
    }
}

pub open spec fn verification_tier_text(tier: VerificationTier) -> Seq<char> {
    match tier {
        VerificationTier::Syntactic => "syntactic"@,
        VerificationTier::RulesEngine => "rules-engine"@,
        VerificationTier::TypeFormula => "type-formula"@,
        VerificationTier::Smt => "smt"@,
    }
}

impl VerificationTier {
    pub fn to_string(&self) -> (r: String)
        ensures
            r@ == verification_tier_text(*self),
    {
        match self {
            VerificationTier::Syntactic => "syntactic".to_owned(),
            VerificationTier::RulesEngine => "rules-engine".to_owned(),
            VerificationTier::TypeFormula => "type-formula".to_owned(),
            VerificationTier::Smt => "smt".to_owned(),
        }
    }
}

/// How much a finding weighs.
#[derive(Debug, Clone, Copy, PartialEq, Eq, Structural)]
pub enum ConstraintSeverity {
    Error,
    Warning,
}

impl DeepView for ConstraintSeverity {
    type V = ConstraintSeverity;

    open spec fn deep_view(&self) -> ConstraintSeverity {
        *self
    }
}

/// A finding of a check.
#[derive(Debug)]
pub struct ConstraintResult {
    /// What kind of constraint was checked
    pub kind: ConstraintKind,
    /// How it was decided
    pub tier: VerificationTier,
    /// Error or warning
    pub severity: ConstraintSeverity,
    /// What was found
    pub message: String,
}

/// What a [`ConstraintResult`] holds.
#[verifier::ext_equal]
pub struct ConstraintResultModel {
    pub kind: ConstraintKind,
    pub tier: VerificationTier,
    pub severity: ConstraintSeverity,
    pub message: Seq<char>,
}

impl DeepView for ConstraintResult {
    type V = ConstraintResultModel;

    open spec fn deep_view(&self) -> ConstraintResultModel {
        ConstraintResultModel {
            kind: self.kind,
            tier: self.tier,
            severity: self.severity,
            message: self.message.deep_view(),
        }
    }
}

impl Clone for ConstraintResult {
    fn clone(&self) -> (r: Self)
        ensures
            r.deep_view() == self.deep_view(),
    {
        self.duplicate()
    }
}

impl Duplicate for ConstraintResult {
    fn duplicate(&self) -> (r: Self) {
        ConstraintResult {
            kind: self.kind,
            tier: self.tier,
            severity: self.severity,
            message: self.message.duplicate(),
        }
    }
}

/// An error that was found by direct comparison.
pub open spec fn error_finding(kind: ConstraintKind, message: Seq<char>) -> ConstraintResultModel {
    ConstraintResultModel {
        kind,
        tier: VerificationTier::Syntactic,
        severity: ConstraintSeverity::Error,
        message,
    }
}

/// A warning that was found by direct comparison.
pub open spec fn warning_finding(kind: ConstraintKind, message: Seq<char>) -> ConstraintResultModel {
    ConstraintResultModel {
        kind,
        tier: VerificationTier::Syntactic,
        severity: ConstraintSeverity::Warning,
        message,
    }
}

/// What is found of each item of a list, in order.
pub open spec fn collected<T>(items: Seq<T>, f: spec_fn(T) -> Seq<ConstraintResultModel>) -> Seq<
    ConstraintResultModel,
>
    decreases items.len(),
{
    if items.len() == 0 {
        Seq::empty()
    } else {
        collected(items.drop_last(), f) + f(items.last())
    }
}

pub proof fn lemma_collected_step<T>(
    items: Seq<T>,
    f: spec_fn(T) -> Seq<ConstraintResultModel>,
    i: int,
)
    requires
        0 <= i < items.len(),
    ensures
        collected(items.take(i + 1), f) == collected(items.take(i), f) + f(items[i]),
{
    assert(items.take(i + 1).drop_last() =~= items.take(i));
    assert(items.take(i + 1).last() == items[i]);
}

pub proof fn lemma_collected_all<T>(items: Seq<T>, f: spec_fn(T) -> Seq<ConstraintResultModel>)
    ensures
        items.take(items.len() as int) == items,
        collected(items.take(0), f) == Seq::<ConstraintResultModel>::empty(),
{
    assert(items.take(items.len() as int) =~= items);
}

/// Nothing is found of a list exactly where nothing is found of each item.
pub proof fn lemma_collected_empty<T>(items: Seq<T>, f: spec_fn(T) -> Seq<ConstraintResultModel>)
    ensures
        collected(items, f).len() == 0 <==> forall|i: int|
            0 <= i < items.len() ==> f(#[trigger] items[i]).len() == 0,
    decreases items.len(),
{
    if items.len() > 0 {
        let front = items.drop_last();
        lemma_collected_empty(front, f);
        if collected(items, f).len() == 0 {
            assert forall|i: int| 0 <= i < items.len() implies f(#[trigger] items[i]).len() == 0 by {
                if i < front.len() {
                    assert(front[i] == items[i]);
                }
            }
        }
        if forall|i: int| 0 <= i < items.len() ==> f(#[trigger] items[i]).len() == 0 {
            assert forall|i: int| 0 <= i < front.len() implies f(#[trigger] front[i]).len() == 0 by {
                assert(f(items[i]).len() == 0);
            }
            assert(f(items[items.len() - 1]).len() == 0);
        }
    }
}

/// One finding where the condition holds, and none else.
pub open spec fn finding_if(condition: bool, finding: ConstraintResultModel) -> Seq<
    ConstraintResultModel,
> {
    if condition {
        seq![finding]
    } else {
        Seq::empty()
    }
}

/// Adds a finding, and a text for its name, where the condition holds.
pub(crate) fn add_finding(
    out: &mut Vec<ConstraintResult>,
    condition: bool,
    kind: ConstraintKind,
    severity: ConstraintSeverity,
    before: &str,
    name: &str,
    after: &str,
)
    ensures
        final(out).deep_view() == old(out).deep_view() + finding_if(
            condition,
            (ConstraintResultModel {
                kind,
                tier: VerificationTier::Syntactic,
                severity,
                message: before@ + name@ + after@,
            }),
        ),
{
    let ghost start = out.deep_view();
    if condition {
        let mut message = before.to_owned();
        message.append(name);
        message.append(after);
        append_item(
            out,
            ConstraintResult { kind, tier: VerificationTier::Syntactic, severity, message },
        );
        assert(out.deep_view() =~= start + seq![out.deep_view().last()]);
    } else {
        assert(start + Seq::empty() =~= start);
    }
}

// ─── Results ──────────────────────────────────────────────────────────────────

/// What checking a spec came to.
#[derive(Debug)]
pub struct CheckResult {
    pub errors: Vec<String>,
    pub warnings: Vec<String>,
    /// The findings with their kinds
    pub constraint_results: Vec<ConstraintResult>,
}

/// What a [`CheckResult`] holds.
#[verifier::ext_equal]
pub struct CheckResultModel {
    pub errors: Seq<Seq<char>>,
    pub warnings: Seq<Seq<char>>,
    pub constraint_results: Seq<ConstraintResultModel>,
}

impl DeepView for CheckResult {
    type V = CheckResultModel;

    open spec fn deep_view(&self) -> CheckResultModel {
        CheckResultModel {
            errors: self.errors.deep_view(),
            warnings: self.warnings.deep_view(),
            constraint_results: self.constraint_results.deep_view(),
        }
    }
}

impl Clone for CheckResult {
    fn clone(&self) -> (r: Self)
        ensures
            r.deep_view() == self.deep_view(),
    {
        self.duplicate()
    }
}

impl Duplicate for CheckResult {
    fn duplicate(&self) -> (r: Self) {
        CheckResult {
            errors: self.errors.duplicate(),
            warnings: self.warnings.duplicate(),
            constraint_results: self.constraint_results.duplicate(),
        }
    }
}

/// The messages of the findings with a severity, in order.
pub open spec fn messages(findings: Seq<ConstraintResultModel>, severity: ConstraintSeverity) -> Seq<
    Seq<char>,
>
    decreases findings.len(),
{
    if findings.len() == 0 {
        Seq::empty()
    } else if findings.last().severity == severity {
        messages(findings.drop_last(), severity).push(findings.last().message)
    } else {
        messages(findings.drop_last(), severity)
    }
}

/// The result that has nothing but the findings.
pub open spec fn result_of(findings: Seq<ConstraintResultModel>) -> CheckResultModel {
    CheckResultModel {
        errors: messages(findings, ConstraintSeverity::Error),
        warnings: messages(findings, ConstraintSeverity::Warning),
        constraint_results: findings,
    }
}

impl Default for CheckResult {
    fn default() -> (r: Self)
        ensures
            r.deep_view() == result_of(Seq::empty()),
    {
        let r = CheckResult {
            errors: Vec::new(),
            warnings: Vec::new(),
            constraint_results: Vec::new(),
        };
        assert(r.deep_view() =~= result_of(Seq::empty()));
        r
    }
}

impl CheckResult {
    pub fn error(&mut self, msg: String)
        ensures
            final(self).deep_view() == (CheckResultModel {
                errors: old(self).deep_view().errors.push(msg@),
                ..old(self).deep_view()
            }),
    {
        append_item(&mut self.errors, msg);
    }

    pub fn warning(&mut self, msg: String)
        ensures
            final(self).deep_view() == (CheckResultModel {
                warnings: old(self).deep_view().warnings.push(msg@),
                ..old(self).deep_view()
            }),
    {
        append_item(&mut self.warnings, msg);
    }

    /// Records a finding: among the findings, and its message among the errors or the
    /// warnings.
    pub fn record(&mut self, finding: ConstraintResult)
        ensures
            final(self).deep_view() == (CheckResultModel {
                errors: if finding.severity == ConstraintSeverity::Error {
                    old(self).deep_view().errors.push(finding.message@)
                } else {
                    old(self).deep_view().errors
                },
                warnings: if finding.severity == ConstraintSeverity::Warning {
                    old(self).deep_view().warnings.push(finding.message@)
                } else {
                    old(self).deep_view().warnings
                },
                constraint_results: old(self).deep_view().constraint_results.push(
                    finding.deep_view(),
                ),
            }),
    {
        match finding.severity {
            ConstraintSeverity::Error => {
                append_item(&mut self.errors, finding.message.clone());
            },
            ConstraintSeverity::Warning => {
                append_item(&mut self.warnings, finding.message.clone());
            },
        }
        append_item(&mut self.constraint_results, finding);
    }

    /// Whether nothing is wrong; warnings do not count.
    pub fn is_ok(&self) -> (b: bool)
        ensures
            b == (self.deep_view().errors.len() == 0),
    {
        self.errors.len() == 0
    }
}

/// Puts findings together to a result.
pub fn make_result(findings: Vec<ConstraintResult>) -> (r: CheckResult)
    ensures
        r.deep_view() == result_of(findings.deep_view()),
{
    let mut r: CheckResult = Default::default();
    let ghost all = findings.deep_view();
    assert(all.take(0) =~= Seq::empty());
    let mut i: usize = 0;
    while i < findings.len()
        invariant
            i <= findings@.len(),
            all == findings.deep_view(),
            r.deep_view() == result_of(all.take(i as int)),
        decreases findings@.len() - i,
    {
        assert(all[i as int] == findings@[i as int].deep_view());
        assert(all.take(i + 1).drop_last() =~= all.take(i as int));
        assert(all.take(i + 1) =~= all.take(i as int).push(all[i as int]));
        r.record(findings[i].duplicate());
        i += 1;
    }
    assert(all.take(all.len() as int) =~= all);
    r
}

// ─── The checker ──────────────────────────────────────────────────────────────

/// Checks specs against source code.
pub struct SpecChecker {
    source_root: String,
    /// The specs of all modules by the path of their source
    spec_map: StringMap<ModuleSpec>,
    /// The rules that apply
    rules: Vec<Rule>,
    /// Which layer may depend on which
    layer_config: LayerConfig,
}

/// What a [`SpecChecker`] holds.
#[verifier::ext_equal]
pub struct SpecCheckerModel {
    pub source_root: Seq<char>,
    pub spec_map: Seq<(Seq<char>, ModuleSpecModel)>,
    pub rules: Seq<RuleModel>,
    pub layers: Seq<(Seq<char>, Seq<Seq<char>>)>,
}

impl DeepView for SpecChecker {
    type V = SpecCheckerModel;

    closed spec fn deep_view(&self) -> SpecCheckerModel {
        SpecCheckerModel {
            source_root: self.source_root@,
            spec_map: self.spec_map.deep_view(),
            rules: self.rules.deep_view(),
            layers: self.layer_config.deep_view(),
        }
    }
}

/// A checker that knows no modules and has the built-in rules and layers.
pub open spec fn new_checker(source_root: Seq<char>) -> SpecCheckerModel {
    SpecCheckerModel {
        source_root,
        spec_map: Seq::empty(),
        rules: builtin_rule_models(),
        layers: builtin_layers(),
    }
}

/// The specs by the path of their source. Specs without one are left out.
pub open spec fn mapped_specs(
    map: Seq<(Seq<char>, ModuleSpecModel)>,
    specs: Seq<ModuleSpecModel>,
) -> Seq<(Seq<char>, ModuleSpecModel)>
    decreases specs.len(),
{
    if specs.len() == 0 {
        map
    } else {
        let before = mapped_specs(map, specs.drop_last());
        match specs.last().source_path {
            Some(p) => with_entry(before, p, specs.last()),
            None => before,
        }
    }
}

/// The rules whose names are not in the list.
pub open spec fn enabled_rules(rules: Seq<RuleModel>, disabled: Seq<Seq<char>>) -> Seq<RuleModel>
    decreases rules.len(),
{
    if rules.len() == 0 {
        Seq::empty()
    } else if disabled.contains(rules.last().name) {
        enabled_rules(rules.drop_last(), disabled)
    } else {
        enabled_rules(rules.drop_last(), disabled).push(rules.last())
    }
}

/// The checker with the rules and layers of a project: its disabled rules go, its own are
/// added, and its layers replace the others.
pub open spec fn configured(c: SpecCheckerModel, config: RulesConfigModel) -> SpecCheckerModel {
    SpecCheckerModel {
        rules: enabled_rules(c.rules, config.disable_builtin) + config.rules,
        layers: match config.layers {
            Some(input) => configured_layers(input),
            None => c.layers,
        },
        ..c
    }
}

impl SpecChecker {
    /// The paths of the known modules are unique.
    pub closed spec fn wf(&self) -> bool {
        self.spec_map.wf()
    }

    pub fn new(source_root: String) -> (r: Self)
        ensures
            r.deep_view() == new_checker(source_root@),
            all_plain(r.deep_view().rules),
            r.wf(),
    {
        let r = SpecChecker {
            source_root,
            spec_map: StringMap::new(),
            rules: builtin_rules(),
            layer_config: LayerConfig::builtin(),
        };
        assert(r.deep_view() =~= new_checker(source_root@));
        r
    }

    /// Where the sources lie.
    pub fn source_root(&self) -> (r: &str)
        ensures
            r@ == self.deep_view().source_root,
    {
        self.source_root.as_str()
    }

    /// Makes the specs of other modules known.
    pub fn with_specs(self, specs: &[ModuleSpec]) -> (r: Self)
        ensures
            r.deep_view() == (SpecCheckerModel {
                spec_map: mapped_specs(self.deep_view().spec_map, specs.deep_view()),
                ..self.deep_view()
            }),
            self.wf() ==> r.wf(),
    {
        let SpecChecker { source_root, spec_map, rules, layer_config } = self;
        let mut map = spec_map;
        let ghost before = map.deep_view();
        let ghost all = specs.deep_view();
        assert(all.take(0).len() == 0);
        let mut i: usize = 0;
        while i < specs.len()
            invariant
                i <= specs@.len(),
                all == specs.deep_view(),
                map.deep_view() == mapped_specs(before, all.take(i as int)),
                spec_map.wf() ==> map.wf(),
            decreases specs@.len() - i,
        {
            assert(all[i as int] == specs@[i as int].deep_view());
            assert(all.take(i + 1).drop_last() =~= all.take(i as int));
            assert(all.take(i + 1).last() == all[i as int]);
            if let Some(p) = &specs[i].source_path {
                map.insert(p.clone(), specs[i].duplicate());
            }
            i += 1;
        }
        assert(all.take(all.len() as int) =~= all);
        SpecChecker { source_root, spec_map: map, rules, layer_config }
    }

    /// Applies the rules and layers of a project.
    pub fn with_rules_config(self, config: &RulesConfig) -> (r: Self)
        ensures
            r.deep_view() == configured(self.deep_view(), config.deep_view()),
            self.wf() ==> r.wf(),
    {
        let SpecChecker { source_root, spec_map, rules, layer_config } = self;
        let mut kept = keep_enabled(&rules, &config.disable_builtin);
        let ghost enabled = kept.deep_view();
        let ghost own = config.rules.deep_view();
        assert(enabled + own.take(0) =~= enabled);
        let mut i: usize = 0;
        while i < config.rules.len()
            invariant
                i <= config.rules@.len(),
                own == config.rules.deep_view(),
                kept.deep_view() == enabled + own.take(i as int),
            decreases config.rules@.len() - i,
        {
            assert(own[i as int] == config.rules@[i as int].deep_view());
            append_item(&mut kept, config.rules[i].duplicate());
            assert(enabled + own.take(i + 1) =~= (enabled + own.take(i as int)).push(
                own[i as int],
            ));
            i += 1;
        }
        assert(own.take(own.len() as int) =~= own);
        let layers = match &config.layers {
            Some(input) => input.to_layer_config(),
            None => layer_config,
        };
        SpecChecker { source_root, spec_map, rules: kept, layer_config: layers }
    }
}

fn keep_enabled(rules: &Vec<Rule>, disabled: &Vec<String>) -> (r: Vec<Rule>)
    ensures
        r.deep_view() == enabled_rules(rules.deep_view(), disabled.deep_view()),
{
    let mut out: Vec<Rule> = Vec::new();
    let ghost all = rules.deep_view();
    assert(all.take(0).len() == 0);
    assert(out.deep_view() =~= Seq::empty());
    let mut i: usize = 0;
    while i < rules.len()
        invariant
            i <= rules@.len(),
            all == rules.deep_view(),
            out.deep_view() == enabled_rules(all.take(i as int), disabled.deep_view()),
        decreases rules@.len() - i,
    {
        assert(all[i as int] == rules@[i as int].deep_view());
        assert(all.take(i + 1).drop_last() =~= all.take(i as int));
        assert(all.take(i + 1).last() == all[i as int]);
        if !list_contains(disabled.as_slice(), &rules[i].name) {
            append_item(&mut out, rules[i].duplicate());
        }
        i += 1;
    }
    assert(all.take(all.len() as int) =~= all);
    out
}

// ─── Exposed entities ─────────────────────────────────────────────────────────

/// The text without its whitespace.
pub open spec fn without_spaces(s: Seq<char>) -> Seq<char>
    decreases s.len(),
{
    if s.len() == 0 {
        Seq::empty()
    } else if text::is_whitespace(s.last()) {
        without_spaces(s.drop_last())
    } else {
        without_spaces(s.drop_last()).push(s.last())
    }
}

fn strip_spaces(s: &str) -> (r: String)
    ensures
        r@ == without_spaces(s@),
{
    let chars = text::chars_of(s);
    let mut out: String = String::new();
    assert(chars@.take(0).len() == 0);
    let mut i: usize = 0;
    while i < chars.len()
        invariant
            i <= chars@.len(),
            out@ == without_spaces(chars@.take(i as int)),
        decreases chars@.len() - i,
    {
        assert(chars@.take(i + 1).drop_last() =~= chars@.take(i as int));
        if !text::whitespace(chars[i]) {
            out.push(chars[i]);
        }
        i += 1;
    }
    assert(chars@.take(chars@.len() as int) =~= chars@);
    out
}

/// What is found of the signature that a spec gives to a function. Whitespace does not count.
pub open spec fn signature_findings(
    name: Seq<char>,
    specified: Option<Seq<char>>,
    actual: Option<Seq<char>>,
) -> Seq<ConstraintResultModel> {
    match (specified, actual) {
        (Some(s), Some(a)) => finding_if(
            without_spaces(s) != without_spaces(a),
            warning_finding(
                ConstraintKind::Structure,
                "Function '"@ + name + "' signature mismatch:\n  spec: "@ + s + "\n  impl: "@ + a,
            ),
        ),
        _ => Seq::empty(),
    }
}

/// What is found of an exposed entity.
pub open spec fn expose_findings(m: ExtractedModuleModel) -> spec_fn(
    (Seq<char>, ExposeSpecModel),
) -> Seq<ConstraintResultModel> {
    |entry: (Seq<char>, ExposeSpecModel)|
        {
            let name = entry.0;
            if entry.1.kind == Some("type"@) {
                finding_if(
                    !has_key(m.type_definitions, name),
                    error_finding(
                        ConstraintKind::Structure,
                        "Type '"@ + name
                            + "' is specified as exposed but not found in implementation"@,
                    ),
                )
            } else if entry.1.kind == Some("variable"@) {
                finding_if(
                    !m.state_variables.contains(name),
                    error_finding(
                        ConstraintKind::Structure,
                        "Variable '"@ + name
                            + "' is specified as exposed but not found in implementation"@,
                    ),
                )
            } else if m.public_functions.contains(name) {
                signature_findings(name, entry.1.signature, lookup(m.function_signatures, name))
            } else if m.private_functions.contains(name) {
                seq![
                    error_finding(
                        ConstraintKind::Structure,
                        "Function '"@ + name
                            + "' is specified as exposed but is private/internal in implementation"@,
                    ),
                ]
            } else {
                seq![
                    error_finding(
                        ConstraintKind::Structure,
                        "Function '"@ + name
                            + "' is specified as exposed but not found in implementation"@,
                    ),
                ]
            }
        }
}

pub(crate) fn is_kind(kind: &Option<String>, wanted: &str) -> (b: bool)
    ensures
        b == (kind.deep_view() == Some(wanted@)),
{
    match kind {
        Some(k) => text::same(k.as_str(), wanted),
        None => false,
    }
}

fn check_signature(
    name: &str,
    specified: &Option<String>,
    actual: Option<&String>,
    out: &mut Vec<ConstraintResult>,
)
    ensures
        final(out).deep_view() == old(out).deep_view() + signature_findings(
            name@,
            specified.deep_view(),
            actual.deep_view(),
        ),
{
    let ghost start = out.deep_view();
    match (specified, actual) {
        (Some(s), Some(a)) => {
            let spec_normalized = strip_spaces(s.as_str());
            let impl_normalized = strip_spaces(a.as_str());
            let mismatch = spec_normalized != impl_normalized;
            if mismatch {
                let mut message = "Function '".to_owned();
                message.append(name);
                message.append("' signature mismatch:\n  spec: ");
                message.append(s.as_str());
                message.append("\n  impl: ");
                message.append(a.as_str());
                append_item(
                    out,
                    ConstraintResult {
                        kind: ConstraintKind::Structure,
                        tier: VerificationTier::Syntactic,
                        severity: ConstraintSeverity::Warning,
                        message,
                    },
                );
                assert(out.deep_view() =~= start + seq![out.deep_view().last()]);
            } else {
                assert(start + Seq::empty() =~= start);
            }
        },
        _ => {
            assert(start + Seq::empty() =~= start);
        },
    }
}

fn check_exposed(
    name: &str,
    entity: &ExposeSpec,
    extracted: &ExtractedModule,
    out: &mut Vec<ConstraintResult>,
)
    ensures
        final(out).deep_view() == old(out).deep_view() + expose_findings(extracted.deep_view())(
            (name@, entity.deep_view()),
        ),
{
    let owned = name.to_owned();
    if is_kind(&entity.kind, "type") {
        let missing = !extracted.type_definitions.contains_key(name);
        add_finding(
            out,
            missing,
            ConstraintKind::Structure,
            ConstraintSeverity::Error,
            "Type '",
            name,
            "' is specified as exposed but not found in implementation",
        );
    } else if is_kind(&entity.kind, "variable") {
        let missing = !list_contains(extracted.state_variables.as_slice(), &owned);
        add_finding(
            out,
            missing,
            ConstraintKind::Structure,
            ConstraintSeverity::Error,
            "Variable '",
            name,
            "' is specified as exposed but not found in implementation",
        );
    } else if list_contains(extracted.public_functions.as_slice(), &owned) {
        let actual = extracted.function_signatures.get(name);
        check_signature(name, &entity.signature, actual, out);
    } else if list_contains(extracted.private_functions.as_slice(), &owned) {
        add_finding(
            out,
            true,
            ConstraintKind::Structure,
            ConstraintSeverity::Error,
            "Function '",
            name,
            "' is specified as exposed but is private/internal in implementation",
        );
    } else {
        add_finding(
            out,
            true,
            ConstraintKind::Structure,
            ConstraintSeverity::Error,
            "Function '",
            name,
            "' is specified as exposed but not found in implementation",
        );
    }
}

/// Checks that all exposed entities exist.
fn check_exposes(spec: &ModuleSpec, extracted: &ExtractedModule, out: &mut Vec<ConstraintResult>)
    ensures
        final(out).deep_view() == old(out).deep_view() + collected(
            spec.exposes.deep_view(),
            expose_findings(extracted.deep_view()),
        ),
{
    let ghost start = out.deep_view();
    let ghost items = spec.exposes.deep_view();
    let ghost f = expose_findings(extracted.deep_view());
    proof {
        lemma_collected_all(items, f);
    }
    assert(start + Seq::empty() =~= start);
    let mut i: usize = 0;
    while i < spec.exposes.len()
        invariant
            i <= items.len(),
            items == spec.exposes.deep_view(),
            f == expose_findings(extracted.deep_view()),
            out.deep_view() == start + collected(items.take(i as int), f),
        decreases items.len() - i,
    {
        proof {
            lemma_collected_step(items, f, i as int);
        }
        let ghost before = collected(items.take(i as int), f);
        check_exposed(spec.exposes.key(i), spec.exposes.value(i), extracted, out);
        assert(out.deep_view() =~= start + (before + f(items[i as int])));
        i += 1;
    }
}

// ─── Dependencies ─────────────────────────────────────────────────────────────

/// What stands behind the last slash.
pub open spec fn last_segment(s: Seq<char>) -> Seq<char> {
    match text::rfind_char_before(s, '/', s.len() as int) {
        Some(k) => s.skip(k + 1),
        None => s,
    }
}

fn take_last_segment(s: &[char]) -> (r: String)
    ensures
        r@ == last_segment(s@),
{
    match text::rfind_char(s, '/') {
        Some(k) => {
            let n: usize = s.len();
            assert(s@.skip(k + 1) =~= s@.subrange(k + 1, n as int));
            text::piece(s, k + 1, n)
        },
        None => text::string_of(s),
    }
}

/// The module's name in a path: `checker` for `src/checker.rs`, and `extractors` for
/// `src/extractors/mod.rs`.
pub open spec fn module_name_of(path: Seq<char>) -> Seq<char> {
    let p = text::without_suffix(path, ".rs"@);
    if text::ends_with(p, "/mod"@) {
        last_segment(text::without_suffix(p, "/mod"@))
    } else {
        last_segment(p)
    }
}

pub fn extract_module_name(path: &str) -> (r: String)
    ensures
        r@ == module_name_of(path@),
{
    proof {
        reveal_strlit(".rs");
        reveal_strlit("/mod");
    }
    let chars = text::chars_of(path);
    let p = text::strip_suffixes(chars.as_slice(), ".rs");
    if text::chars_end_with(p, "/mod") {
        take_last_segment(text::strip_suffixes(p, "/mod"))
    } else {
        take_last_segment(p)
    }
}

/// Whether an import contains the name of a module in the list.
pub open spec fn import_allowed(import: Seq<char>, depends_on: Seq<Seq<char>>) -> bool {
    exists|i: int|
        0 <= i < depends_on.len() && text::contains(
            import,
            module_name_of(#[trigger] depends_on[i]),
        )
}

/// Whether an import contains one of the texts.
pub open spec fn contains_any(import: Seq<char>, texts: Seq<Seq<char>>) -> bool {
    exists|i: int| 0 <= i < texts.len() && text::contains(import, #[trigger] texts[i])
}

pub open spec fn is_std_import(import: Seq<char>) -> bool {
    text::starts_with(import, "std::"@) || text::starts_with(import, "core::"@)
        || text::starts_with(import, "alloc::"@)
}

/// What is found of an import, where the spec lists dependencies.
pub open spec fn import_findings(spec: ModuleSpecModel) -> spec_fn(Seq<char>) -> Seq<
    ConstraintResultModel,
> {
    |import: Seq<char>|
        finding_if(
            !import_allowed(import, spec.depends_on) && !contains_any(import, spec.external_deps)
                && !is_std_import(import),
            warning_finding(
                ConstraintKind::Dependency,
                "Import '"@ + import + "' not in depends_on or external_deps"@,
            ),
        )
}

fn any_dependency_in(import: &str, depends_on: &Vec<String>) -> (b: bool)
    ensures
        b == import_allowed(import@, depends_on.deep_view()),
{
    let mut i: usize = 0;
    while i < depends_on.len()
        invariant
            i <= depends_on@.len(),
            forall|j: int|
                0 <= j < i ==> !text::contains(
                    import@,
                    module_name_of((#[trigger] depends_on@[j])@),
                ),
        decreases depends_on@.len() - i,
    {
        let name = extract_module_name(depends_on[i].as_str());
        if text::text_contains(import, name.as_str()) {
            assert(text::contains(import@, module_name_of(depends_on.deep_view()[i as int])));
            return true;
        }
        i += 1;
    }
    assert forall|j: int| 0 <= j < depends_on.deep_view().len() implies !text::contains(
        import@,
        module_name_of(#[trigger] depends_on.deep_view()[j]),
    ) by {
        assert(!text::contains(import@, module_name_of(depends_on@[j]@)));
    }
    false
}

pub fn any_contained(import: &str, texts: &Vec<String>) -> (b: bool)
    ensures
        b == contains_any(import@, texts.deep_view()),
{
    let mut i: usize = 0;
    while i < texts.len()
        invariant
            i <= texts@.len(),
            forall|j: int| 0 <= j < i ==> !text::contains(import@, (#[trigger] texts@[j])@),
        decreases texts@.len() - i,
    {
        if text::text_contains(import, texts[i].as_str()) {
            assert(text::contains(import@, texts.deep_view()[i as int]));
            return true;
        }
        i += 1;
    }
    assert forall|j: int| 0 <= j < texts.deep_view().len() implies !text::contains(
        import@,
        #[trigger] texts.deep_view()[j],
    ) by {
        assert(!text::contains(import@, texts@[j]@));
    }
    false
}

/// What is found of the imports: nothing where the spec lists no dependencies.
pub open spec fn dependency_findings(spec: ModuleSpecModel, m: ExtractedModuleModel) -> Seq<
    ConstraintResultModel,
> {
    if spec.depends_on.len() == 0 {
        Seq::empty()
    } else {
        collected(m.imports, import_findings(spec))
    }
}

/// Checks that all imports are allowed.
fn check_dependencies(
    spec: &ModuleSpec,
    extracted: &ExtractedModule,
    out: &mut Vec<ConstraintResult>,
)
    ensures
        final(out).deep_view() == old(out).deep_view() + dependency_findings(
            spec.deep_view(),
            extracted.deep_view(),
        ),
{
    let ghost start = out.deep_view();
    let ghost items = extracted.imports.deep_view();
    let ghost model = spec.deep_view();
    let ghost f = import_findings(model);
    assert(start + Seq::empty() =~= start);
    if spec.depends_on.len() == 0 {
        return;
    }
    proof {
        lemma_collected_all(items, f);
    }
    let mut i: usize = 0;
    while i < extracted.imports.len()
        invariant
            i <= items.len(),
            items == extracted.imports.deep_view(),
            model == spec.deep_view(),
            f == import_findings(model),
            out.deep_view() == start + collected(items.take(i as int), f),
        decreases items.len() - i,
    {
        proof {
            lemma_collected_step(items, f, i as int);
        }
        let ghost before = collected(items.take(i as int), f);
        let import = extracted.imports[i].as_str();
        assert(items[i as int] == import@);
        let unknown = !any_dependency_in(import, &spec.depends_on) && !any_contained(
            import,
            &spec.external_deps,
        ) && !(text::text_starts_with(import, "std::") || text::text_starts_with(import, "core::")
            || text::text_starts_with(import, "alloc::"));
        add_finding(
            out,
            unknown,
            ConstraintKind::Dependency,
            ConstraintSeverity::Warning,
            "Import '",
            import,
            "' not in depends_on or external_deps",
        );
        assert(out.deep_view() =~= start + (before + f(items[i as int])));
        i += 1;
    }
}

/// What is found of an import and a forbidden text.
pub open spec fn forbidden_finding(
    intro: Seq<char>,
    module: Seq<char>,
    import: Seq<char>,
) -> spec_fn(Seq<char>) -> Seq<ConstraintResultModel> {
    |forbidden: Seq<char>|
        finding_if(
            text::contains(import, forbidden),
            error_finding(
                ConstraintKind::Dependency,
                intro + module + "' imports '"@ + import + "' which matches forbidden '"@
                    + forbidden + "'"@,
            ),
        )
}

/// What is found of an import and all that is forbidden.
pub open spec fn forbidden_findings(spec: ModuleSpecModel) -> spec_fn(Seq<char>) -> Seq<
    ConstraintResultModel,
> {
    |import: Seq<char>|
        collected(
            spec.forbidden_deps,
            forbidden_finding("Forbidden dependency: '"@, spec.module, import),
        ) + collected(
            spec.forbidden_external,
            forbidden_finding("Forbidden external dependency: '"@, spec.module, import),
        )
}

fn check_forbidden_list(
    intro: &str,
    module: &str,
    import: &str,
    list: &Vec<String>,
    out: &mut Vec<ConstraintResult>,
)
    ensures
        final(out).deep_view() == old(out).deep_view() + collected(
            list.deep_view(),
            forbidden_finding(intro@, module@, import@),
        ),
{
    let ghost start = out.deep_view();
    let ghost items = list.deep_view();
    let ghost f = forbidden_finding(intro@, module@, import@);
    proof {
        lemma_collected_all(items, f);
    }
    assert(start + Seq::empty() =~= start);
    let mut i: usize = 0;
    while i < list.len()
        invariant
            i <= items.len(),
            items == list.deep_view(),
            f == forbidden_finding(intro@, module@, import@),
            out.deep_view() == start + collected(items.take(i as int), f),
        decreases items.len() - i,
    {
        proof {
            lemma_collected_step(items, f, i as int);
        }
        let ghost before = collected(items.take(i as int), f);
        let forbidden = list[i].as_str();
        assert(items[i as int] == forbidden@);
        if text::text_contains(import, forbidden) {
            let mut message = intro.to_owned();
            message.append(module);
            message.append("' imports '");
            message.append(import);
            message.append("' which matches forbidden '");
            message.append(forbidden);
            message.append("'");
            append_item(
                out,
                ConstraintResult {
                    kind: ConstraintKind::Dependency,
                    tier: VerificationTier::Syntactic,
                    severity: ConstraintSeverity::Error,
                    message,
                },
            );
        }
        assert(out.deep_view() =~= start + (before + f(items[i as int])));
        i += 1;
    }
}

/// Checks for forbidden dependencies.
fn check_forbidden_deps(
    spec: &ModuleSpec,
    extracted: &ExtractedModule,
    out: &mut Vec<ConstraintResult>,
)
    ensures
        final(out).deep_view() == old(out).deep_view() + collected(
            extracted.deep_view().imports,
            forbidden_findings(spec.deep_view()),
        ),
{
    let ghost start = out.deep_view();
    let ghost items = extracted.imports.deep_view();
    let ghost model = spec.deep_view();
    let ghost f = forbidden_findings(model);
    proof {
        lemma_collected_all(items, f);
    }
    assert(start + Seq::empty() =~= start);
    let mut i: usize = 0;
    while i < extracted.imports.len()
        invariant
            i <= items.len(),
            items == extracted.imports.deep_view(),
            model == spec.deep_view(),
            f == forbidden_findings(model),
            out.deep_view() == start + collected(items.take(i as int), f),
        decreases items.len() - i,
    {
        proof {
            lemma_collected_step(items, f, i as int);
        }
        let ghost before = collected(items.take(i as int), f);
        let import = extracted.imports[i].as_str();
        assert(items[i as int] == import@);
        check_forbidden_list(
            "Forbidden dependency: '",
            spec.module.as_str(),
            import,
            &spec.forbidden_deps,
            out,
        );
        check_forbidden_list(
            "Forbidden external dependency: '",
            spec.module.as_str(),
            import,
            &spec.forbidden_external,
            out,
        );
        assert(out.deep_view() =~= start + (before + f(items[i as int])));
        i += 1;
    }
}

// ─── Architecture ─────────────────────────────────────────────────────────────

/// The finding that a broken rule makes.
pub open spec fn violation_finding(v: RuleViolationModel) -> ConstraintResultModel {
    ConstraintResultModel {
        kind: ConstraintKind::Architectural,
        tier: VerificationTier::RulesEngine,
        severity: match v.severity {
            Severity::Error => ConstraintSeverity::Error,
            Severity::Warning => ConstraintSeverity::Warning,
        },
        message: "["@ + v.rule_name + "] "@ + v.message,
    }
}

pub open spec fn violation_findings(vs: Seq<RuleViolationModel>) -> Seq<ConstraintResultModel> {
    vs.map_values(|v: RuleViolationModel| violation_finding(v))
}

/// What a dependency on a known module breaks of the rules.
pub open spec fn dependency_violations(
    c: SpecCheckerModel,
    source: ModuleSpecModel,
    target: ModuleSpecModel,
) -> Option<Seq<RuleViolationModel>> {
    violations_of(c.rules, (EvalContextModel { source, target, layers: c.layers }))
}

/// What is found of a dependency. Modules that are not known are skipped.
pub open spec fn architectural_findings(c: SpecCheckerModel, spec: ModuleSpecModel) -> spec_fn(
    Seq<char>,
) -> Seq<ConstraintResultModel> {
    |dep: Seq<char>|
        match lookup(c.spec_map, dep) {
            Some(target) => match dependency_violations(c, spec, target) {
                Some(vs) => violation_findings(vs),
                None => Seq::empty(),
            },
            None => Seq::empty(),
        }
}

/// Whether all rules can be evaluated on the dependencies of a module.
pub open spec fn rules_evaluable(c: SpecCheckerModel, spec: ModuleSpecModel) -> bool {
    forall|i: int|
        0 <= i < spec.depends_on.len() ==> match lookup(
            c.spec_map,
            #[trigger] spec.depends_on[i],
        ) {
            Some(target) => dependency_violations(c, spec, target) is Some,
            None => true,
        }
}

/// Rules of ASCII characters without quote marks can be evaluated on all dependencies.
pub proof fn plain_rules_are_evaluable(c: SpecCheckerModel, spec: ModuleSpecModel)
    requires
        all_plain(c.rules),
    ensures
        rules_evaluable(c, spec),
{
    assert forall|i: int| 0 <= i < spec.depends_on.len() implies (lookup(
        c.spec_map,
        #[trigger] spec.depends_on[i],
    ) matches Some(target) ==> dependency_violations(c, spec, target) is Some) by {
        match lookup(c.spec_map, spec.depends_on[i]) {
            Some(target) => {
                plain_rules_can_be_checked(
                    c.rules,
                    (EvalContextModel { source: spec, target, layers: c.layers }),
                );
            },
            None => {},
        }
    }
}

fn add_violations(violations: &Vec<RuleViolation>, out: &mut Vec<ConstraintResult>)
    ensures
        final(out).deep_view() == old(out).deep_view() + violation_findings(
            violations.deep_view(),
        ),
{
    let ghost start = out.deep_view();
    let ghost all = violation_findings(violations.deep_view());
    assert(start + all.take(0) =~= start);
    let mut i: usize = 0;
    while i < violations.len()
        invariant
            i <= violations@.len(),
            all == violation_findings(violations.deep_view()),
            out.deep_view() == start + all.take(i as int),
        decreases violations@.len() - i,
    {
        let v = &violations[i];
        assert(violations.deep_view()[i as int] == v.deep_view());
        let mut message = "[".to_owned();
        message.append(v.rule_name.as_str());
        message.append("] ");
        message.append(v.message.as_str());
        let severity = match v.severity {
            Severity::Error => ConstraintSeverity::Error,
            Severity::Warning => ConstraintSeverity::Warning,
        };
        append_item(
            out,
            ConstraintResult {
                kind: ConstraintKind::Architectural,
                tier: VerificationTier::RulesEngine,
                severity,
                message,
            },
        );
        assert(start + all.take(i + 1) =~= (start + all.take(i as int)).push(all[i as int]));
        i += 1;
    }
    assert(all.take(all.len() as int) =~= all);
}

impl SpecChecker {
    /// Checks the dependencies against the rules, or says that a rule cannot be evaluated.
    fn check_architectural_constraints(
        &self,
        spec: &ModuleSpec,
        out: &mut Vec<ConstraintResult>,
    ) -> (b: bool)
        ensures
            b == rules_evaluable(self.deep_view(), spec.deep_view()),
            b ==> final(out).deep_view() == old(out).deep_view() + collected(
                spec.deep_view().depends_on,
                architectural_findings(self.deep_view(), spec.deep_view()),
            ),
    {
        let ghost start = out.deep_view();
        let ghost items = spec.depends_on.deep_view();
        let ghost c = self.deep_view();
        let ghost model = spec.deep_view();
        let ghost f = architectural_findings(c, model);
        proof {
            lemma_collected_all(items, f);
        }
        assert(start + Seq::empty() =~= start);
        let mut i: usize = 0;
        while i < spec.depends_on.len()
            invariant
                i <= items.len(),
                items == spec.depends_on.deep_view(),
                items == model.depends_on,
                c == self.deep_view(),
                model == spec.deep_view(),
                f == architectural_findings(c, model),
                forall|j: int|
                    0 <= j < i ==> (lookup(c.spec_map, #[trigger] items[j]) matches Some(target)
                        ==> dependency_violations(c, model, target) is Some),
                out.deep_view() == start + collected(items.take(i as int), f),
            decreases items.len() - i,
        {
            proof {
                lemma_collected_step(items, f, i as int);
            }
            let ghost before = collected(items.take(i as int), f);
            assert(items[i as int] == spec.depends_on@[i as int]@);
            if let Some(target) = self.spec_map.get(spec.depends_on[i].as_str()) {
                match checked_check_dependency(
                    spec,
                    target,
                    self.rules.as_slice(),
                    &self.layer_config,
                ) {
                    Some(violations) => {
                        add_violations(&violations, out);
                    },
                    None => {
                        assert(dependency_violations(c, model, target.deep_view()) is None);
                        assert(!rules_evaluable(c, model)) by {
                            assert(lookup(c.spec_map, model.depends_on[i as int]) is Some);
                        }
                        return false;
                    },
                }
            }
            assert(out.deep_view() =~= start + (before + f(items[i as int])));
            i += 1;
        }
        true
    }
}

// ─── Events ───────────────────────────────────────────────────────────────────

/// What is found of the items of one list that are missing in another.
pub open spec fn missing_findings(
    others: Seq<Seq<char>>,
    kind: ConstraintKind,
    severity: ConstraintSeverity,
    before: Seq<char>,
    after: Seq<char>,
) -> spec_fn(Seq<char>) -> Seq<ConstraintResultModel> {
    |item: Seq<char>|
        finding_if(
            !others.contains(item),
            (ConstraintResultModel {
                kind,
                tier: VerificationTier::Syntactic,
                severity,
                message: before + item + after,
            }),
        )
}

fn check_missing(
    items: &Vec<String>,
    others: &Vec<String>,
    kind: ConstraintKind,
    severity: ConstraintSeverity,
    before: &str,
    after: &str,
    out: &mut Vec<ConstraintResult>,
)
    ensures
        final(out).deep_view() == old(out).deep_view() + collected(
            items.deep_view(),
            missing_findings(others.deep_view(), kind, severity, before@, after@),
        ),
{
    let ghost start = out.deep_view();
    let ghost all = items.deep_view();
    let ghost f = missing_findings(others.deep_view(), kind, severity, before@, after@);
    proof {
        lemma_collected_all(all, f);
    }
    assert(start + Seq::empty() =~= start);
    let mut i: usize = 0;
    while i < items.len()
        invariant
            i <= all.len(),
            all == items.deep_view(),
            f == missing_findings(others.deep_view(), kind, severity, before@, after@),
            out.deep_view() == start + collected(all.take(i as int), f),
        decreases all.len() - i,
    {
        proof {
            lemma_collected_step(all, f, i as int);
        }
        let ghost done = collected(all.take(i as int), f);
        assert(all[i as int] == items@[i as int]@);
        let missing = !list_contains(others.as_slice(), &items[i]);
        add_finding(out, missing, kind, severity, before, items[i].as_str(), after);
        assert(out.deep_view() =~= start + (done + f(all[i as int])));
        i += 1;
    }
}

/// What is found of the events: those that are missing, and, where the spec lists any, those
/// that it does not list.
pub open spec fn event_findings(spec: ModuleSpecModel, m: ExtractedModuleModel) -> Seq<
    ConstraintResultModel,
> {
    collected(
        spec.emits,
        missing_findings(
            m.events,
            ConstraintKind::Event,
            ConstraintSeverity::Error,
            "Event '"@,
            "' is specified in emits but not found in implementation"@,
        ),
    ) + if spec.emits.len() == 0 {
        Seq::empty()
    } else {
        collected(
            m.events,
            missing_findings(
                spec.emits,
                ConstraintKind::Event,
                ConstraintSeverity::Warning,
                "Event '"@,
                "' is defined in implementation but not in emits spec"@,
            ),
        )
    }
}

fn check_events(spec: &ModuleSpec, extracted: &ExtractedModule, out: &mut Vec<ConstraintResult>)
    ensures
        final(out).deep_view() == old(out).deep_view() + event_findings(
            spec.deep_view(),
            extracted.deep_view(),
        ),
{
    let ghost start = out.deep_view();
    check_missing(
        &spec.emits,
        &extracted.events,
        ConstraintKind::Event,
        ConstraintSeverity::Error,
        "Event '",
        "' is specified in emits but not found in implementation",
        out,
    );
    let ghost middle = out.deep_view();
    if spec.emits.len() != 0 {
        check_missing(
            &extracted.events,
            &spec.emits,
            ConstraintKind::Event,
            ConstraintSeverity::Warning,
            "Event '",
            "' is defined in implementation but not in emits spec",
            out,
        );
    }
    assert(out.deep_view() =~= start + event_findings(spec.deep_view(), extracted.deep_view()));
}

// ─── State ────────────────────────────────────────────────────────────────────

/// Whether a module other than the named one owns the state.
pub open spec fn owned_elsewhere(
    specs: Seq<(Seq<char>, ModuleSpecModel)>,
    state: Seq<char>,
    module: Seq<char>,
) -> bool {
    exists|i: int|
        0 <= i < specs.len() && (#[trigger] specs[i]).1.module != module
            && specs[i].1.owns_state.contains(state)
}

/// What is found of a state of another module. Where no modules are known, nothing is.
pub open spec fn foreign_state_findings(
    c: SpecCheckerModel,
    spec: ModuleSpecModel,
    before: Seq<char>,
) -> spec_fn(Seq<char>) -> Seq<ConstraintResultModel> {
    |state: Seq<char>|
        finding_if(
            c.spec_map.len() != 0 && !owned_elsewhere(c.spec_map, state, spec.module),
            warning_finding(
                ConstraintKind::Dependency,
                before + state + "' not found in any other module's owns_state"@,
            ),
        )
}

/// What is found of another module that owns the same state.
pub open spec fn conflict_finding(spec: ModuleSpecModel, state: Seq<char>) -> spec_fn(
    (Seq<char>, ModuleSpecModel),
) -> Seq<ConstraintResultModel> {
    |other: (Seq<char>, ModuleSpecModel)|
        finding_if(
            other.1.module != spec.module && other.1.owns_state.contains(state),
            error_finding(
                ConstraintKind::Architectural,
                "State ownership conflict: '"@ + state + "' is owned by both '"@ + spec.module
                    + "' and '"@ + other.1.module + "'"@,
            ),
        )
}

/// What is found of a state that the module owns, and of all other modules.
pub open spec fn conflict_findings(c: SpecCheckerModel, spec: ModuleSpecModel) -> spec_fn(
    Seq<char>,
) -> Seq<ConstraintResultModel> {
    |state: Seq<char>| collected(c.spec_map, conflict_finding(spec, state))
}

/// What is found of the state that a module owns, reads and changes.
pub open spec fn state_findings(
    c: SpecCheckerModel,
    spec: ModuleSpecModel,
    m: ExtractedModuleModel,
) -> Seq<ConstraintResultModel> {
    let missing = collected(
        spec.owns_state,
        missing_findings(
            m.state_variables,
            ConstraintKind::Structure,
            ConstraintSeverity::Error,
            "State variable '"@,
            "' is listed in owns_state but not found in implementation"@,
        ),
    );
    let unlisted = if spec.owns_state.len() == 0 {
        Seq::empty()
    } else {
        collected(
            m.state_variables,
            missing_findings(
                spec.owns_state,
                ConstraintKind::Structure,
                ConstraintSeverity::Warning,
                "State variable '"@,
                "' exists in implementation but not listed in owns_state"@,
            ),
        )
    };
    let reads = collected(spec.reads_state, foreign_state_findings(c, spec, "reads_state '"@));
    let modifies = collected(spec.modifies, foreign_state_findings(c, spec, "modifies '"@));
    let conflicts = collected(spec.owns_state, conflict_findings(c, spec));
    missing + unlisted + reads + modifies + conflicts
}

impl SpecChecker {
    fn state_exists_in_other_module(&self, state: &String, spec: &ModuleSpec) -> (b: bool)
        ensures
            b == (self.deep_view().spec_map.len() == 0 || owned_elsewhere(
                self.deep_view().spec_map,
                state@,
                spec.module@,
            )),
    {
        if self.spec_map.len() == 0 {
            return true;
        }
        let ghost specs = self.spec_map.deep_view();
        let mut i: usize = 0;
        while i < self.spec_map.len()
            invariant
                i <= specs.len(),
                specs == self.spec_map.deep_view(),
                forall|j: int|
                    0 <= j < i ==> !((#[trigger] specs[j]).1.module != spec.module@
                        && specs[j].1.owns_state.contains(state@)),
            decreases specs.len() - i,
        {
            let other = self.spec_map.value(i);
            if other.module != spec.module {
                if list_contains(other.owns_state.as_slice(), state) {
                    assert(specs[i as int].1.owns_state.contains(state@));
                    return true;
                }
            }
            i += 1;
        }
        false
    }

    fn check_foreign_state(
        &self,
        states: &Vec<String>,
        spec: &ModuleSpec,
        before: &str,
        out: &mut Vec<ConstraintResult>,
    )
        ensures
            final(out).deep_view() == old(out).deep_view() + collected(
                states.deep_view(),
                foreign_state_findings(self.deep_view(), spec.deep_view(), before@),
            ),
    {
        let ghost start = out.deep_view();
        let ghost items = states.deep_view();
        let ghost f = foreign_state_findings(self.deep_view(), spec.deep_view(), before@);
        proof {
            lemma_collected_all(items, f);
        }
        assert(start + Seq::empty() =~= start);
        let mut i: usize = 0;
        while i < states.len()
            invariant
                i <= items.len(),
                items == states.deep_view(),
                f == foreign_state_findings(self.deep_view(), spec.deep_view(), before@),
                out.deep_view() == start + collected(items.take(i as int), f),
            decreases items.len() - i,
        {
            proof {
                lemma_collected_step(items, f, i as int);
            }
            let ghost done = collected(items.take(i as int), f);
            assert(items[i as int] == states@[i as int]@);
            let orphan = !self.state_exists_in_other_module(&states[i], spec);
            add_finding(
                out,
                orphan,
                ConstraintKind::Dependency,
                ConstraintSeverity::Warning,
                before,
                states[i].as_str(),
                "' not found in any other module's owns_state",
            );
            assert(out.deep_view() =~= start + (done + f(items[i as int])));
            i += 1;
        }
    }

    fn check_conflicts_of(
        &self,
        state: &String,
        spec: &ModuleSpec,
        out: &mut Vec<ConstraintResult>,
    )
        ensures
            final(out).deep_view() == old(out).deep_view() + collected(
                self.deep_view().spec_map,
                conflict_finding(spec.deep_view(), state@),
            ),
    {
        let ghost start = out.deep_view();
        let ghost items = self.spec_map.deep_view();
        let ghost f = conflict_finding(spec.deep_view(), state@);
        proof {
            lemma_collected_all(items, f);
        }
        assert(start + Seq::empty() =~= start);
        let mut i: usize = 0;
        while i < self.spec_map.len()
            invariant
                i <= items.len(),
                items == self.spec_map.deep_view(),
                f == conflict_finding(spec.deep_view(), state@),
                out.deep_view() == start + collected(items.take(i as int), f),
            decreases items.len() - i,
        {
            proof {
                lemma_collected_step(items, f, i as int);
            }
            let ghost done = collected(items.take(i as int), f);
            let other = self.spec_map.value(i);
            if other.module != spec.module {
                if list_contains(other.owns_state.as_slice(), state) {
                    let mut message = "State ownership conflict: '".to_owned();
                    message.append(state.as_str());
                    message.append("' is owned by both '");
                    message.append(spec.module.as_str());
                    message.append("' and '");
                    message.append(other.module.as_str());
                    message.append("'");
                    append_item(
                        out,
                        ConstraintResult {
                            kind: ConstraintKind::Architectural,
                            tier: VerificationTier::Syntactic,
                            severity: ConstraintSeverity::Error,
                            message,
                        },
                    );
                }
            }
            assert(out.deep_view() =~= start + (done + f(items[i as int])));
            i += 1;
        }
    }

    /// Finds state that another module claims to own too.
    fn check_state_ownership_conflicts(&self, spec: &ModuleSpec, out: &mut Vec<ConstraintResult>)
        ensures
            final(out).deep_view() == old(out).deep_view() + collected(
                spec.deep_view().owns_state,
                conflict_findings(self.deep_view(), spec.deep_view()),
            ),
    {
        let ghost start = out.deep_view();
        let ghost items = spec.owns_state.deep_view();
        let ghost f = conflict_findings(self.deep_view(), spec.deep_view());
        proof {
            lemma_collected_all(items, f);
        }
        assert(start + Seq::empty() =~= start);
        let mut i: usize = 0;
        while i < spec.owns_state.len()
            invariant
                i <= items.len(),
                items == spec.owns_state.deep_view(),
                f == conflict_findings(self.deep_view(), spec.deep_view()),
                out.deep_view() == start + collected(items.take(i as int), f),
            decreases items.len() - i,
        {
            proof {
                lemma_collected_step(items, f, i as int);
            }
            let ghost done = collected(items.take(i as int), f);
            assert(items[i as int] == spec.owns_state@[i as int]@);
            self.check_conflicts_of(&spec.owns_state[i], spec, out);
            assert(out.deep_view() =~= start + (done + f(items[i as int])));
            i += 1;
        }
    }

    /// Checks the state that a module owns, reads and changes.
    fn check_state_constraints(
        &self,
        spec: &ModuleSpec,
        extracted: &ExtractedModule,
        out: &mut Vec<ConstraintResult>,
    )
        ensures
            final(out).deep_view() == old(out).deep_view() + state_findings(
                self.deep_view(),
                spec.deep_view(),
                extracted.deep_view(),
            ),
    {
        let ghost start = out.deep_view();
        check_missing(
            &spec.owns_state,
            &extracted.state_variables,
            ConstraintKind::Structure,
            ConstraintSeverity::Error,
            "State variable '",
            "' is listed in owns_state but not found in implementation",
            out,
        );
        if spec.owns_state.len() != 0 {
            check_missing(
                &extracted.state_variables,
                &spec.owns_state,
                ConstraintKind::Structure,
                ConstraintSeverity::Warning,
                "State variable '",
                "' exists in implementation but not listed in owns_state",
                out,
            );
        }
        self.check_foreign_state(&spec.reads_state, spec, "reads_state '", out);
        self.check_foreign_state(&spec.modifies, spec, "modifies '", out);
        self.check_state_ownership_conflicts(spec, out);
        assert(out.deep_view() =~= start + state_findings(
            self.deep_view(),
            spec.deep_view(),
            extracted.deep_view(),
        ));
    }
}

} // verus!

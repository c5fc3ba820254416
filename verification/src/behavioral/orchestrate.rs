//! Checking the invariants of a spec one by one: what is decided at once, what is looked up,
//! and what a language model is asked.
use vstd::prelude::*;

use crate::behavioral::llm::{
    build_description_context, cache_file_of, cache_key, description_context, estimate_tokens,
    key_of, prompt_text, CachedResult, CachedResultModel, LlmCheckMode, LlmConfig, LlmConfigModel,
    LlmProvider, LlmRequest, LlmRequestModel,
};
use crate::behavioral::{
    all_invariants, check_static_invariant, static_check, ClassifiedInvariant,
    ClassifiedInvariantModel, InvariantResult, InvariantResultModel, InvariantTier,
};
use crate::data::append_item;
use crate::spec::{ModuleSpec, ModuleSpecModel};
use crate::text;

verus! {

/// What checking the invariants of a spec came to.
#[derive(Debug)]
pub struct BehavioralSummary {
    pub static_passed: usize,
    pub static_failed: usize,
    pub llm_passed: usize,
    pub llm_failed: usize,
    pub cached: usize,
    pub skipped: usize,
    /// Each invariant that failed, with the reasoning.
    pub failures: Vec<(String, String)>,
}

/// What a [`BehavioralSummary`] holds.
#[verifier::ext_equal]
pub struct BehavioralSummaryModel {
    pub static_passed: usize,
    pub static_failed: usize,
    pub llm_passed: usize,
    pub llm_failed: usize,
    pub cached: usize,
    pub skipped: usize,
    pub failures: Seq<(Seq<char>, Seq<char>)>,
}

impl DeepView for BehavioralSummary {
    type V = BehavioralSummaryModel;

    open spec fn deep_view(&self) -> BehavioralSummaryModel {
        BehavioralSummaryModel {
            static_passed: self.static_passed,
            static_failed: self.static_failed,
            llm_passed: self.llm_passed,
            llm_failed: self.llm_failed,
            cached: self.cached,
            skipped: self.skipped,
            failures: self.failures.deep_view(),
        }
    }
}

/// The summary of no checks.
pub open spec fn empty_summary() -> BehavioralSummaryModel {
    BehavioralSummaryModel {
        static_passed: 0,
        static_failed: 0,
        llm_passed: 0,
        llm_failed: 0,
        cached: 0,
        skipped: 0,
        failures: Seq::empty(),
    }
}

impl Default for BehavioralSummary {
    fn default() -> (r: Self)
        ensures
            r.deep_view() == empty_summary(),
    {
        let r = BehavioralSummary {
            static_passed: 0,
            static_failed: 0,
            llm_passed: 0,
            llm_failed: 0,
            cached: 0,
            skipped: 0,
            failures: Vec::new(),
        };
        assert(r.failures.deep_view() =~= Seq::empty());
        r
    }
}

impl BehavioralSummaryModel {
    /// How many invariants it counts.
    pub open spec fn total(self) -> nat {
        (self.static_passed + self.static_failed + self.llm_passed + self.llm_failed
            + self.skipped) as nat
    }

    /// Only results of a model are cached, and every failure is listed.
    pub open spec fn wf(self) -> bool {
        &&& self.cached <= self.llm_passed + self.llm_failed
        &&& self.failures.len() == self.static_failed + self.llm_failed
    }

    /// Whether one more invariant can be counted.
    pub open spec fn has_room(self) -> bool {
        self.wf() && self.total() < usize::MAX
    }

    /// With one more invariant that patterns in the code decided.
    pub open spec fn with_static(self, claim: Seq<char>, result: InvariantResultModel) -> Self {
        if result.satisfies {
            BehavioralSummaryModel { static_passed: (self.static_passed + 1) as usize, ..self }
        } else {
            BehavioralSummaryModel {
                static_failed: (self.static_failed + 1) as usize,
                failures: self.failures.push((claim, result.reasoning)),
                ..self
            }
        }
    }

    /// With one more invariant that a language model decided.
    pub open spec fn with_verdict(
        self,
        claim: Seq<char>,
        satisfies: bool,
        reasoning: Seq<char>,
    ) -> Self {
        if satisfies {
            BehavioralSummaryModel { llm_passed: (self.llm_passed + 1) as usize, ..self }
        } else {
            BehavioralSummaryModel {
                llm_failed: (self.llm_failed + 1) as usize,
                failures: self.failures.push((claim, reasoning)),
                ..self
            }
        }
    }

    /// With one more invariant for which there was a cached result.
    pub open spec fn with_cached(self, claim: Seq<char>, cached: CachedResultModel) -> Self {
        BehavioralSummaryModel { cached: (self.cached + 1) as usize, ..self }.with_verdict(
            claim,
            cached.satisfies,
            cached.reasoning,
        )
    }

    /// With one more invariant that was not checked.
    pub open spec fn with_skipped(self) -> Self {
        BehavioralSummaryModel { skipped: (self.skipped + 1) as usize, ..self }
    }
}

impl BehavioralSummary {
    /// Whether one more invariant can be counted.
    pub fn has_room(&self) -> (b: bool)
        ensures
            b == self.deep_view().has_room(),
    {
        let total: u128 = self.static_passed as u128 + self.static_failed as u128
            + self.llm_passed as u128 + self.llm_failed as u128 + self.skipped as u128;
        let failures: usize = self.failures.len();
        assert(failures == self.deep_view().failures.len());
        self.cached as u128 <= self.llm_passed as u128 + self.llm_failed as u128
            && failures as u128 == self.static_failed as u128 + self.llm_failed as u128 && total
            < usize::MAX as u128
    }

    fn add_static(&mut self, claim: &str, result: &InvariantResult)
        requires
            old(self).deep_view().has_room(),
        ensures
            final(self).deep_view() == old(self).deep_view().with_static(
                claim@,
                result.deep_view(),
            ),
    {
        if result.satisfies {
            self.static_passed = self.static_passed + 1;
        } else {
            self.static_failed = self.static_failed + 1;
            append_item(&mut self.failures, (claim.to_owned(), result.reasoning.clone()));
        }
    }

    fn add_verdict(&mut self, claim: &str, satisfies: bool, reasoning: &str)
        requires
            old(self).deep_view().total() < usize::MAX,
        ensures
            final(self).deep_view() == old(self).deep_view().with_verdict(
                claim@,
                satisfies,
                reasoning@,
            ),
    {
        if satisfies {
            self.llm_passed = self.llm_passed + 1;
        } else {
            self.llm_failed = self.llm_failed + 1;
            append_item(&mut self.failures, (claim.to_owned(), reasoning.to_owned()));
        }
    }
}

// ─── The steps ────────────────────────────────────────────────────────────────

/// What follows for an invariant.
#[derive(Debug)]
pub enum InvariantStep {
    /// It is counted, and done with. There may be something to say of it.
    Done { notice: Option<String> },
    /// The cached result of this key is to be looked up.
    LookUp { key: String },
    /// A language model is to be asked.
    Ask { request: LlmRequest },
}

/// What an [`InvariantStep`] holds.
#[verifier::ext_equal]
pub enum InvariantStepModel {
    Done { notice: Option<Seq<char>> },
    LookUp { key: Seq<char> },
    Ask { request: LlmRequestModel },
}

impl DeepView for InvariantStep {
    type V = InvariantStepModel;

    open spec fn deep_view(&self) -> InvariantStepModel {
        match *self {
            InvariantStep::Done { notice } => InvariantStepModel::Done {
                notice: notice.deep_view(),
            },
            InvariantStep::LookUp { key } => InvariantStepModel::LookUp { key: key@ },
            InvariantStep::Ask { request } => InvariantStepModel::Ask {
                request: request.deep_view(),
            },
        }
    }
}

/// The first step for an invariant, and the summary after it. What patterns in the code
/// decide is done with; everything else is looked up, unless no behavioral checks are made.
pub open spec fn first_step(
    summary: BehavioralSummaryModel,
    claim: ClassifiedInvariantModel,
    source: Seq<char>,
    config: LlmConfigModel,
) -> (BehavioralSummaryModel, InvariantStepModel) {
    let decided = if claim.tier == InvariantTier::Static {
        static_check(claim.text, source)
    } else {
        None
    };
    match decided {
        Some(result) => (
            summary.with_static(claim.text, result),
            InvariantStepModel::Done { notice: None },
        ),
        None => if config.check_mode == LlmCheckMode::Off {
            (summary.with_skipped(), InvariantStepModel::Done { notice: None })
        } else {
            (summary, InvariantStepModel::LookUp { key: key_of(source, claim.text) })
        },
    }
}

/// Takes the first step for an invariant.
pub fn start_invariant(
    summary: &mut BehavioralSummary,
    claim: &ClassifiedInvariant,
    source_code: &str,
    config: &LlmConfig,
) -> (r: InvariantStep)
    requires
        old(summary).deep_view().has_room(),
    ensures
        (final(summary).deep_view(), r.deep_view()) == first_step(
            old(summary).deep_view(),
            claim.deep_view(),
            source_code@,
            config.deep_view(),
        ),
        r matches InvariantStep::LookUp { key } ==> cache_file_of(key@) is Some,
{
    if claim.tier == InvariantTier::Static {
        match check_static_invariant(claim, source_code) {
            Some(result) => {
                summary.add_static(claim.text.as_str(), &result);
                return InvariantStep::Done { notice: None };
            },
            None => {},
        }
    }
    if config.check_mode == LlmCheckMode::Off {
        summary.skipped = summary.skipped + 1;
        InvariantStep::Done { notice: None }
    } else {
        InvariantStep::LookUp { key: cache_key(source_code, claim.text.as_str()) }
    }
}

pub open spec fn estimate_notice(claim: Seq<char>, source: Seq<char>, context: Seq<char>) -> Seq<
    char,
> {
    "  [dry-run] "@ + claim + " | ~"@ + text::decimal(
        vstd::utf8::encode_utf8(
            prompt_text(source, claim, context, LlmProvider::Anthropic),
        ).len() / 4 + 100,
    ) + " tokens | would call LLM"@
}

pub open spec fn no_key_notice(claim: Seq<char>) -> Seq<char> {
    "  [skip] "@ + claim + " — no API key set (ANTHROPIC_API_KEY or config)"@
}

/// The step behind the look-up, and the summary after it. A cached result settles the
/// invariant. Otherwise a model is asked in full mode, if it can be.
pub open spec fn look_up_step(
    summary: BehavioralSummaryModel,
    spec: ModuleSpecModel,
    claim: Seq<char>,
    source: Seq<char>,
    config: LlmConfigModel,
    cached: Option<CachedResultModel>,
) -> (BehavioralSummaryModel, InvariantStepModel) {
    let context = description_context(spec, claim);
    match cached {
        Some(c) => (
            summary.with_cached(claim, c),
            InvariantStepModel::Done { notice: None },
        ),
        None => match config.check_mode {
            LlmCheckMode::Off => (
                summary.with_skipped(),
                InvariantStepModel::Done { notice: None },
            ),
            LlmCheckMode::CachedOnly => (
                summary.with_skipped(),
                InvariantStepModel::Done { notice: None },
            ),
            LlmCheckMode::DryRun => (
                summary.with_skipped(),
                InvariantStepModel::Done {
                    notice: Some(estimate_notice(claim, source, context)),
                },
            ),
            LlmCheckMode::Full => if config.can_ask() {
                (
                    summary,
                    InvariantStepModel::Ask {
                        request: config.check_request(source, claim, context),
                    },
                )
            } else {
                (
                    summary.with_skipped(),
                    InvariantStepModel::Done { notice: Some(no_key_notice(claim)) },
                )
            },
        },
    }
}

/// Takes the step behind the look-up of a cached result.
pub fn after_look_up(
    summary: &mut BehavioralSummary,
    spec: &ModuleSpec,
    claim: &ClassifiedInvariant,
    source_code: &str,
    config: &LlmConfig,
    cached: &Option<CachedResult>,
) -> (r: InvariantStep)
    requires
        old(summary).deep_view().has_room(),
    ensures
        (final(summary).deep_view(), r.deep_view()) == look_up_step(
            old(summary).deep_view(),
            spec.deep_view(),
            claim.text@,
            source_code@,
            config.deep_view(),
            cached.deep_view(),
        ),
{
    let name = claim.text.as_str();
    match cached {
        Some(c) => {
            summary.cached = summary.cached + 1;
            summary.add_verdict(name, c.satisfies, c.reasoning.as_str());
            return InvariantStep::Done { notice: None };
        },
        None => {},
    }
    let context = build_description_context(spec, name);
    match config.check_mode {
        LlmCheckMode::Full => {
            if config.can_ask() {
                InvariantStep::Ask {
                    request: config.check_request(source_code, name, context.as_str()),
                }
            } else {
                let mut notice = "  [skip] ".to_owned();
                notice.append(name);
                notice.append(" — no API key set (ANTHROPIC_API_KEY or config)");
                summary.skipped = summary.skipped + 1;
                InvariantStep::Done { notice: Some(notice) }
            }
        },
        LlmCheckMode::DryRun => {
            let tokens: usize = estimate_tokens(source_code, name, context.as_str());
            let mut notice = "  [dry-run] ".to_owned();
            notice.append(name);
            notice.append(" | ~");
            notice.append(text::usize_string(tokens).as_str());
            notice.append(" tokens | would call LLM");
            summary.skipped = summary.skipped + 1;
            InvariantStep::Done { notice: Some(notice) }
        },
        LlmCheckMode::CachedOnly => {
            summary.skipped = summary.skipped + 1;
            InvariantStep::Done { notice: None }
        },
        LlmCheckMode::Off => {
            summary.skipped = summary.skipped + 1;
            InvariantStep::Done { notice: None }
        },
    }
}

/// What follows the answer of a language model.
#[derive(Debug)]
pub struct AfterAnswer {
    /// The result that is to be cached.
    pub keep: Option<CachedResult>,
    /// How long to wait before the next call, in seconds.
    pub cooldown_secs: u64,
    /// What there is to say of it.
    pub notice: Option<String>,
}

/// What a [`AfterAnswer`] holds.
#[verifier::ext_equal]
pub struct AfterAnswerModel {
    pub keep: Option<CachedResultModel>,
    pub cooldown_secs: u64,
    pub notice: Option<Seq<char>>,
}

impl DeepView for AfterAnswer {
    type V = AfterAnswerModel;

    open spec fn deep_view(&self) -> AfterAnswerModel {
        AfterAnswerModel {
            keep: self.keep.deep_view(),
            cooldown_secs: self.cooldown_secs,
            notice: self.notice.deep_view(),
        }
    }
}

/// The summary behind the answer of a model, and what follows it. A local model is given time
/// to cool down.
pub open spec fn answer_step(
    summary: BehavioralSummaryModel,
    claim: Seq<char>,
    source: Seq<char>,
    config: LlmConfigModel,
    answer: Result<InvariantResultModel, Seq<char>>,
    now: Seq<char>,
) -> (BehavioralSummaryModel, AfterAnswerModel) {
    let cooldown_secs: u64 = if config.ollama() {
        config.cooldown_secs
    } else {
        0
    };
    match answer {
        Ok(result) => (
            summary.with_verdict(claim, result.satisfies, result.reasoning),
            AfterAnswerModel {
                keep: Some(
                    CachedResultModel {
                        satisfies: result.satisfies,
                        reasoning: result.reasoning,
                        model: config.model,
                        timestamp: now,
                        code_hash: key_of(source, claim),
                        invariant_hash: key_of(source, claim),
                    },
                ),
                cooldown_secs,
                notice: None,
            },
        ),
        Err(e) => (
            summary.with_skipped(),
            AfterAnswerModel {
                keep: None,
                cooldown_secs,
                notice: Some("  [error] "@ + claim + " — LLM call failed: "@ + e),
            },
        ),
    }
}

/// Takes the step behind the answer of a language model.
pub fn after_answer(
    summary: &mut BehavioralSummary,
    claim: &ClassifiedInvariant,
    source_code: &str,
    config: &LlmConfig,
    answer: &Result<InvariantResult, String>,
    now: &str,
) -> (r: AfterAnswer)
    requires
        old(summary).deep_view().has_room(),
    ensures
        (final(summary).deep_view(), r.deep_view()) == answer_step(
            old(summary).deep_view(),
            claim.text@,
            source_code@,
            config.deep_view(),
            match *answer {
                Ok(result) => Ok(result.deep_view()),
                Err(e) => Err(e@),
            },
            now@,
        ),
{
    let cooldown_secs: u64 = if config.is_ollama() {
        config.cooldown_secs
    } else {
        0
    };
    let name = claim.text.as_str();
    match answer {
        Ok(result) => {
            let key = cache_key(source_code, name);
            summary.add_verdict(name, result.satisfies, result.reasoning.as_str());
            AfterAnswer {
                keep: Some(
                    CachedResult {
                        satisfies: result.satisfies,
                        reasoning: result.reasoning.clone(),
                        model: config.model.clone(),
                        timestamp: now.to_owned(),
                        code_hash: key.clone(),
                        invariant_hash: key,
                    },
                ),
                cooldown_secs,
                notice: None,
            }
        },
        Err(e) => {
            let mut notice = "  [error] ".to_owned();
            notice.append(name);
            notice.append(" — LLM call failed: ");
            notice.append(e.as_str());
            summary.skipped = summary.skipped + 1;
            AfterAnswer { keep: None, cooldown_secs, notice: Some(notice) }
        },
    }
}

// ─── Laws ─────────────────────────────────────────────────────────────────────

/// The summary behind an invariant, given the cached result that a look-up would find and the
/// answer that a model would give.
pub open spec fn settled(
    summary: BehavioralSummaryModel,
    spec: ModuleSpecModel,
    claim: ClassifiedInvariantModel,
    source: Seq<char>,
    config: LlmConfigModel,
    cached: Option<CachedResultModel>,
    answer: Result<InvariantResultModel, Seq<char>>,
    now: Seq<char>,
) -> BehavioralSummaryModel {
    let (first, step) = first_step(summary, claim, source, config);
    match step {
        InvariantStepModel::LookUp { .. } => {
            let (second, next) = look_up_step(first, spec, claim.text, source, config, cached);
            match next {
                InvariantStepModel::Ask { .. } => answer_step(
                    second,
                    claim.text,
                    source,
                    config,
                    answer,
                    now,
                ).0,
                _ => second,
            }
        },
        _ => first,
    }
}

/// Every invariant is counted exactly once, whatever is cached and whatever a model says;
/// every failure is listed, and no more results are from the cache than from a model.
pub proof fn each_invariant_counts_once(
    summary: BehavioralSummaryModel,
    spec: ModuleSpecModel,
    claim: ClassifiedInvariantModel,
    source: Seq<char>,
    config: LlmConfigModel,
    cached: Option<CachedResultModel>,
    answer: Result<InvariantResultModel, Seq<char>>,
    now: Seq<char>,
)
    requires
        summary.has_room(),
    ensures
        settled(summary, spec, claim, source, config, cached, answer, now).wf(),
        settled(summary, spec, claim, source, config, cached, answer, now).total()
            == summary.total() + 1,
{
}

/// The summary behind the first `k` of the invariants of a spec.
pub open spec fn settled_first(
    spec: ModuleSpecModel,
    source: Seq<char>,
    config: LlmConfigModel,
    cached: Seq<Option<CachedResultModel>>,
    answers: Seq<Result<InvariantResultModel, Seq<char>>>,
    now: Seq<char>,
    k: int,
) -> BehavioralSummaryModel
    decreases k,
{
    if k <= 0 {
        empty_summary()
    } else {
        settled(
            settled_first(spec, source, config, cached, answers, now, k - 1),
            spec,
            all_invariants(spec)[k - 1],
            source,
            config,
            cached[k - 1],
            answers[k - 1],
            now,
        )
    }
}

/// The summary of a spec counts as many invariants as the spec has, and lists each failure.
pub proof fn all_invariants_are_counted(
    spec: ModuleSpecModel,
    source: Seq<char>,
    config: LlmConfigModel,
    cached: Seq<Option<CachedResultModel>>,
    answers: Seq<Result<InvariantResultModel, Seq<char>>>,
    now: Seq<char>,
)
    requires
        all_invariants(spec).len() <= usize::MAX,
    ensures
        settled_first(
            spec,
            source,
            config,
            cached,
            answers,
            now,
            all_invariants(spec).len() as int,
        ).wf(),
        settled_first(
            spec,
            source,
            config,
            cached,
            answers,
            now,
            all_invariants(spec).len() as int,
        ).total() == all_invariants(spec).len(),
{
    lemma_counted(
        spec,
        source,
        config,
        cached,
        answers,
        now,
        all_invariants(spec).len() as int,
    );
}

proof fn lemma_counted(
    spec: ModuleSpecModel,
    source: Seq<char>,
    config: LlmConfigModel,
    cached: Seq<Option<CachedResultModel>>,
    answers: Seq<Result<InvariantResultModel, Seq<char>>>,
    now: Seq<char>,
    k: int,
)
    requires
        0 <= k <= usize::MAX,
    ensures
        settled_first(spec, source, config, cached, answers, now, k).wf(),
        settled_first(spec, source, config, cached, answers, now, k).total() == k,
    decreases k,
{
    if k > 0 {
        lemma_counted(spec, source, config, cached, answers, now, k - 1);
        each_invariant_counts_once(
            settled_first(spec, source, config, cached, answers, now, k - 1),
            spec,
            all_invariants(spec)[k - 1],
            source,
            config,
            cached[k - 1],
            answers[k - 1],
            now,
        );
    }
}

/// A model is asked in full mode alone, where no result is cached and the provider can be
/// asked.
pub proof fn models_are_asked_in_full_mode(
    summary: BehavioralSummaryModel,
    spec: ModuleSpecModel,
    claim: Seq<char>,
    source: Seq<char>,
    config: LlmConfigModel,
    cached: Option<CachedResultModel>,
)
    ensures
        look_up_step(summary, spec, claim, source, config, cached).1 is Ask <==> (cached is None
            && config.check_mode == LlmCheckMode::Full && config.can_ask()),
{
}

/// Where no behavioral checks are made, nothing is looked up.
pub proof fn nothing_is_looked_up_when_off(
    summary: BehavioralSummaryModel,
    claim: ClassifiedInvariantModel,
    source: Seq<char>,
    config: LlmConfigModel,
)
    requires
        config.check_mode == LlmCheckMode::Off,
    ensures
        first_step(summary, claim, source, config).1 is Done,
{
}

/// A result that was kept is used when the same invariant is checked on the same code again:
/// it is looked up under the key that it was kept under, and counts as it did before.
pub proof fn kept_results_are_used(
    summary: BehavioralSummaryModel,
    spec: ModuleSpecModel,
    claim: ClassifiedInvariantModel,
    source: Seq<char>,
    config: LlmConfigModel,
    result: InvariantResultModel,
    now: Seq<char>,
)
    requires
        first_step(summary, claim, source, config).1 is LookUp,
    ensures
        ({
            let kept = answer_step(summary, claim.text, source, config, Ok(result), now).1.keep;
            let again = look_up_step(summary, spec, claim.text, source, config, kept);
            &&& kept is Some
            &&& first_step(summary, claim, source, config).1 == (InvariantStepModel::LookUp {
                key: kept->Some_0.code_hash,
            })
            &&& again.1 is Done
            &&& again.0 == summary.with_cached(claim.text, kept->Some_0)
            &&& kept->Some_0.satisfies == result.satisfies
            &&& kept->Some_0.reasoning == result.reasoning
        }),
{
}

} // verus!

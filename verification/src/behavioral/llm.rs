//! Asking a language model: configuration, requests and replies.
use vstd::prelude::*;

use crate::behavioral::{InvariantResult, InvariantResultModel};
use crate::data::{append_item, result_view, Duplicate};
use crate::flow9_parser::scan;
use crate::hash;
use crate::spec::{ModuleSpec, ModuleSpecModel};
use crate::text;

verus! {

/// Rate-limited requests are tried again at most this often.
pub const MAX_RETRIES: u32 = 5;

/// The delay before the first retry, in milliseconds.
pub const INITIAL_BACKOFF_MS: u64 = 2000;

/// The cooldown between calls of a local model, in seconds, unless configured.
pub const DEFAULT_LOCAL_LLM_COOLDOWN_SECS: u64 = 10;

/// The context window of Ollama models, unless configured.
pub const DEFAULT_OLLAMA_NUM_CTX: u32 = 8192;

// ─── Configuration ────────────────────────────────────────────────────────────

/// Which behavioral checks are made.
#[derive(Debug, Clone, Copy, PartialEq, Eq, Structural)]
pub enum LlmCheckMode {
    /// No behavioral checks
    Off,
    /// Show what would be checked, with the estimated cost
    DryRun,
    /// Use cached results, and ask no model
    CachedOnly,
    /// Ask a model where no result is cached
    Full,
}

impl DeepView for LlmCheckMode {
    type V = LlmCheckMode;

    open spec fn deep_view(&self) -> LlmCheckMode {
        *self
    }
}

/// The mode that a word names, in any case.
pub open spec fn check_mode_named(s: Seq<char>) -> Result<LlmCheckMode, Seq<char>> {
    let lower = text::lowercase(s);
    if lower == "off"@ {
        Ok(LlmCheckMode::Off)
    } else if lower == "dry-run"@ || lower == "dryrun"@ || lower == "dry_run"@ {
        Ok(LlmCheckMode::DryRun)
    } else if lower == "cached-only"@ || lower == "cached"@ || lower == "cache"@ {
        Ok(LlmCheckMode::CachedOnly)
    } else if lower == "full"@ {
        Ok(LlmCheckMode::Full)
    } else {
        Err("Unknown LLM check mode: '"@ + s + "'. Use: off, dry-run, cached-only, full"@)
    }
}

/// Reads a mode from the word that names it.
pub fn parse_check_mode(s: &str) -> (r: Result<LlmCheckMode, String>)
    ensures
        result_view(r) == check_mode_named(s@),
{
    let lower = s.to_lowercase();
    let l = lower.as_str();
    if text::same(l, "off") {
        Ok(LlmCheckMode::Off)
    } else if text::same(l, "dry-run") || text::same(l, "dryrun") || text::same(l, "dry_run") {
        Ok(LlmCheckMode::DryRun)
    } else if text::same(l, "cached-only") || text::same(l, "cached") || text::same(l, "cache") {
        Ok(LlmCheckMode::CachedOnly)
    } else if text::same(l, "full") {
        Ok(LlmCheckMode::Full)
    } else {
        let mut message = "Unknown LLM check mode: '".to_owned();
        message.append(s);
        message.append("'. Use: off, dry-run, cached-only, full");
        Err(message)
    }
}

impl std::str::FromStr for LlmCheckMode {
    type Err = String;

    fn from_str(s: &str) -> (r: Result<Self, String>)
        ensures
            result_view(r) == check_mode_named(s@),
    {
        parse_check_mode(s)
    }
}

/// Whose API an endpoint offers.
#[derive(Debug, Clone, Copy, PartialEq, Eq, Structural)]
pub enum LlmProvider {
    /// The Anthropic API
    Anthropic,
    /// An API that is compatible with that of OpenAI (Ollama, vLLM, LM Studio)
    OpenAICompatible,
}

impl DeepView for LlmProvider {
    type V = LlmProvider;

    open spec fn deep_view(&self) -> LlmProvider {
        *self
    }
}

/// How a language model is reached.
#[derive(Debug)]
pub struct LlmConfig {
    pub endpoint: String,
    pub model: String,
    pub api_key: Option<String>,
    pub check_mode: LlmCheckMode,
    pub provider: LlmProvider,
    /// The cooldown between calls of a local model, in seconds.
    pub cooldown_secs: u64,
    /// The context window of Ollama models.
    pub context_size: u32,
}

/// What a [`LlmConfig`] holds.
#[verifier::ext_equal]
pub struct LlmConfigModel {
    pub endpoint: Seq<char>,
    pub model: Seq<char>,
    pub api_key: Option<Seq<char>>,
    pub check_mode: LlmCheckMode,
    pub provider: LlmProvider,
    pub cooldown_secs: u64,
    pub context_size: u32,
}

impl DeepView for LlmConfig {
    type V = LlmConfigModel;

    open spec fn deep_view(&self) -> LlmConfigModel {
        LlmConfigModel {
            endpoint: self.endpoint.deep_view(),
            model: self.model.deep_view(),
            api_key: self.api_key.deep_view(),
            check_mode: self.check_mode,
            provider: self.provider,
            cooldown_secs: self.cooldown_secs,
            context_size: self.context_size,
        }
    }
}

impl Clone for LlmConfig {
    fn clone(&self) -> (r: Self)
        ensures
            r.deep_view() == self.deep_view(),
    {
        self.duplicate()
    }
}

impl Duplicate for LlmConfig {
    fn duplicate(&self) -> (r: Self) {
        LlmConfig {
            endpoint: self.endpoint.duplicate(),
            model: self.model.duplicate(),
            api_key: self.api_key.duplicate(),
            check_mode: self.check_mode,
            provider: self.provider,
            cooldown_secs: self.cooldown_secs,
            context_size: self.context_size,
        }
    }
}

/// The API keys that the environment holds.
#[derive(Debug)]
pub struct ApiKeys {
    /// `ANTHROPIC_API_KEY`
    pub anthropic: Option<String>,
    /// `OPENAI_API_KEY`
    pub openai: Option<String>,
    /// `LLM_API_KEY`
    pub llm: Option<String>,
}

/// What a [`ApiKeys`] holds.
#[verifier::ext_equal]
pub struct ApiKeysModel {
    pub anthropic: Option<Seq<char>>,
    pub openai: Option<Seq<char>>,
    pub llm: Option<Seq<char>>,
}

impl DeepView for ApiKeys {
    type V = ApiKeysModel;

    open spec fn deep_view(&self) -> ApiKeysModel {
        ApiKeysModel {
            anthropic: self.anthropic.deep_view(),
            openai: self.openai.deep_view(),
            llm: self.llm.deep_view(),
        }
    }
}

/// The configuration where nothing is configured but the model that is asked then.
pub open spec fn unconfigured_llm(model: Seq<char>) -> LlmConfigModel {
    LlmConfigModel {
        endpoint: "https://api.anthropic.com"@,
        model,
        api_key: None,
        check_mode: LlmCheckMode::Off,
        provider: LlmProvider::Anthropic,
        cooldown_secs: DEFAULT_LOCAL_LLM_COOLDOWN_SECS,
        context_size: DEFAULT_OLLAMA_NUM_CTX,
    }
}

/// The provider that an endpoint belongs to.
pub open spec fn provider_of(endpoint: Seq<char>) -> LlmProvider {
    if text::contains(endpoint, "anthropic.com"@) {
        LlmProvider::Anthropic
    } else {
        LlmProvider::OpenAICompatible
    }
}

impl ApiKeysModel {
    /// The key for a provider: its own, or else a more general one.
    pub open spec fn for_provider(self, provider: LlmProvider) -> Option<Seq<char>> {
        match provider {
            LlmProvider::Anthropic => self.anthropic,
            LlmProvider::OpenAICompatible => if self.openai is Some {
                self.openai
            } else if self.llm is Some {
                self.llm
            } else {
                self.anthropic
            },
        }
    }
}

/// Whether an endpoint looks like one of Ollama's own API.
pub open spec fn offers_ollama_api(base: Seq<char>) -> bool {
    text::contains(base, "11434"@) || text::ends_with(base, "/api"@)
}

impl LlmConfigModel {
    /// The URL to which messages are sent.
    pub open spec fn url(self) -> Seq<char> {
        let base = text::without_last(self.endpoint, '/');
        match self.provider {
            LlmProvider::Anthropic => base + "/v1/messages"@,
            LlmProvider::OpenAICompatible => if offers_ollama_api(base) {
                text::without_suffix(text::without_suffix(base, "/v1"@), "/api"@) + "/api/chat"@
            } else {
                base + "/chat/completions"@
            },
        }
    }

    /// Whether the endpoint is one of an Ollama instance.
    pub open spec fn ollama(self) -> bool {
        text::contains(self.endpoint, "11434"@)
    }

    /// Whether the provider can be asked: Anthropic only with a key.
    pub open spec fn can_ask(self) -> bool {
        self.api_key is Some || self.provider != LlmProvider::Anthropic
    }
}

impl LlmConfig {
    /// The configuration where nothing is configured but the model that is asked then.
    pub fn new(model: &str) -> (r: Self)
        ensures
            r.deep_view() == unconfigured_llm(model@),
    {
        LlmConfig {
            endpoint: "https://api.anthropic.com".to_owned(),
            model: model.to_owned(),
            api_key: None,
            check_mode: LlmCheckMode::Off,
            provider: LlmProvider::Anthropic,
            cooldown_secs: DEFAULT_LOCAL_LLM_COOLDOWN_SECS,
            context_size: DEFAULT_OLLAMA_NUM_CTX,
        }
    }

    /// Detects the provider from the endpoint.
    pub fn detect_provider(endpoint: &str) -> (r: LlmProvider)
        ensures
            r == provider_of(endpoint@),
    {
        if text::text_contains(endpoint, "anthropic.com") {
            LlmProvider::Anthropic
        } else {
            LlmProvider::OpenAICompatible
        }
    }

    /// Takes the API key from the environment, if it holds one for the provider. It comes
    /// before the one that is configured.
    pub fn resolve_api_key(&mut self, environment: &ApiKeys)
        ensures
            final(self).deep_view() == (LlmConfigModel {
                api_key: match environment.deep_view().for_provider(old(self).provider) {
                    Some(key) => Some(key),
                    None => old(self).deep_view().api_key,
                },
                ..old(self).deep_view()
            }),
    {
        let found = match self.provider {
            LlmProvider::Anthropic => environment.anthropic.duplicate(),
            LlmProvider::OpenAICompatible => if environment.openai.is_some() {
                environment.openai.duplicate()
            } else if environment.llm.is_some() {
                environment.llm.duplicate()
            } else {
                environment.anthropic.duplicate()
            },
        };
        if found.is_some() {
            self.api_key = found;
        }
    }

    /// The URL to which messages are sent.
    pub fn api_url(&self) -> (r: String)
        ensures
            r@ == self.deep_view().url(),
    {
        proof {
            reveal_strlit("/v1");
            reveal_strlit("/api");
        }
        let endpoint = text::chars_of(self.endpoint.as_str());
        let base = text::strip_last(endpoint.as_slice(), '/');
        match self.provider {
            LlmProvider::Anthropic => {
                let mut url = text::string_of(base);
                url.append("/v1/messages");
                url
            },
            LlmProvider::OpenAICompatible => {
                if text::chars_contain(base, "11434") || text::chars_end_with(base, "/api") {
                    let short = text::strip_suffixes(text::strip_suffixes(base, "/v1"), "/api");
                    let mut url = text::string_of(short);
                    url.append("/api/chat");
                    url
                } else {
                    let mut url = text::string_of(base);
                    url.append("/chat/completions");
                    url
                }
            },
        }
    }

    /// Whether the endpoint is one of an Ollama instance.
    pub fn is_ollama(&self) -> (b: bool)
        ensures
            b == self.deep_view().ollama(),
    {
        text::text_contains(self.endpoint.as_str(), "11434")
    }

    /// Whether the provider can be asked.
    pub fn can_ask(&self) -> (b: bool)
        ensures
            b == self.deep_view().can_ask(),
    {
        self.api_key.is_some() || self.provider != LlmProvider::Anthropic
    }
}

// ─── Prompts ──────────────────────────────────────────────────────────────────

/// What a prompt says of the context of an invariant.
pub open spec fn context_section(context: Seq<char>) -> Seq<char> {
    if context.len() == 0 {
        Seq::empty()
    } else {
        "\n## Context:\n"@ + context + "\n"@
    }
}

/// What ends a prompt. A local model is told not to think aloud.
pub open spec fn prompt_end(provider: LlmProvider) -> Seq<char> {
    match provider {
        LlmProvider::OpenAICompatible => " /no_think"@,
        LlmProvider::Anthropic => ""@,
    }
}

/// The prompt that asks whether code satisfies an invariant.
pub open spec fn prompt_text(
    code: Seq<char>,
    claim: Seq<char>,
    context: Seq<char>,
    provider: LlmProvider,
) -> Seq<char> {
    "You are verifying whether source code satisfies a specification invariant.\n\n## Invariant to verify:\n"@ + claim + "\n"@ + context_section(context)
        + "\n## Source code:\n```\n"@ + code + "\n```\n\n## Instructions:\nAnalyze the code and determine whether it satisfies the invariant.\nRespond with ONLY a JSON object, no other text:\n{\"satisfies\": true/false, \"reasoning\": \"your explanation in 1-2 sentences\"}"@ + prompt_end(
        provider,
    )
}

/// Builds the prompt that asks whether code satisfies an invariant.
pub fn build_prompt(code: &str, claim: &str, context: &str, provider: &LlmProvider) -> (r: String)
    ensures
        r@ == prompt_text(code@, claim@, context@, *provider),
{
    let mut section: String = String::new();
    if !context.is_empty() {
        section = "\n## Context:\n".to_owned();
        section.append(context);
        section.append("\n");
    }
    assert(section@ == context_section(context@));
    let mut prompt =
        "You are verifying whether source code satisfies a specification invariant.\n\n## Invariant to verify:\n".to_owned();
    prompt.append(claim);
    prompt.append("\n");
    prompt.append(section.as_str());
    prompt.append("\n## Source code:\n```\n");
    prompt.append(code);
    prompt.append(
        "\n```\n\n## Instructions:\nAnalyze the code and determine whether it satisfies the invariant.\nRespond with ONLY a JSON object, no other text:\n{\"satisfies\": true/false, \"reasoning\": \"your explanation in 1-2 sentences\"}",
    );
    match provider {
        LlmProvider::OpenAICompatible => prompt.append(" /no_think"),
        LlmProvider::Anthropic => prompt.append(""),
    }
    prompt
}

/// What describes the first `k` exposed entities that an invariant is about.
pub open spec fn entity_descriptions(spec: ModuleSpecModel, claim: Seq<char>, k: int) -> Seq<
    Seq<char>,
>
    decreases k,
{
    if k <= 0 || k > spec.exposes.len() {
        Seq::empty()
    } else {
        let before = entity_descriptions(spec, claim, k - 1);
        let (name, entity) = spec.exposes[k - 1];
        match entity.description {
            Some(d) if text::starts_with(claim, name + ": "@) => before.push(
                "`"@ + name + "`: "@ + d,
            ),
            _ => before,
        }
    }
}

pub open spec fn module_description(spec: ModuleSpecModel) -> Seq<Seq<char>> {
    match spec.description {
        Some(d) => seq!["Module `"@ + spec.module + "`: "@ + d],
        None => Seq::empty(),
    }
}

/// The context of an invariant: the descriptions of the module, and of the entity that the
/// invariant is about.
pub open spec fn description_context(spec: ModuleSpecModel, claim: Seq<char>) -> Seq<char> {
    text::join(
        module_description(spec) + entity_descriptions(spec, claim, spec.exposes.len() as int),
        "\n"@,
    )
}

/// Builds the context of an invariant.
pub fn build_description_context(spec: &ModuleSpec, claim: &str) -> (r: String)
    ensures
        r@ == description_context(spec.deep_view(), claim@),
{
    let ghost model = spec.deep_view();
    let mut parts: Vec<String> = Vec::new();
    match &spec.description {
        Some(d) => {
            let mut part = "Module `".to_owned();
            part.append(spec.module.as_str());
            part.append("`: ");
            part.append(d.as_str());
            append_item(&mut parts, part);
        },
        None => {},
    }
    assert(parts.deep_view() =~= module_description(model));
    assert(module_description(model) + Seq::<Seq<char>>::empty() =~= module_description(model));
    let mut k: usize = 0;
    while k < spec.exposes.len()
        invariant
            k <= spec.exposes.deep_view().len(),
            model == spec.deep_view(),
            parts.deep_view() == module_description(model) + entity_descriptions(
                model,
                claim@,
                k as int,
            ),
        decreases spec.exposes.deep_view().len() - k,
    {
        let name = spec.exposes.key(k);
        let entity = spec.exposes.value(k);
        let ghost before = entity_descriptions(model, claim@, k as int);
        assert(model.exposes[k as int] == (name@, entity.deep_view()));
        match &entity.description {
            Some(d) => {
                let mut start = name.to_owned();
                start.append(": ");
                if text::text_starts_with(claim, start.as_str()) {
                    let mut part = "`".to_owned();
                    part.append(name);
                    part.append("`: ");
                    part.append(d.as_str());
                    let ghost text = part@;
                    append_item(&mut parts, part);
                    assert((module_description(model) + before).push(text)
                        =~= module_description(model) + before.push(text));
                }
            },
            None => {},
        }
        k += 1;
    }
    text::join_strings(parts.as_slice(), "\n")
}

/// Estimates how many tokens a check takes: one for four bytes of the prompt, and a hundred
/// for the reply.
pub fn estimate_tokens(code: &str, claim: &str, context: &str) -> (r: usize)
    ensures
        r == vstd::utf8::encode_utf8(
            prompt_text(code@, claim@, context@, LlmProvider::Anthropic),
        ).len() / 4 + 100,
{
    let prompt = build_prompt(code, claim, context, &LlmProvider::Anthropic);
    let bytes = prompt.as_str().as_bytes();
    let length: usize = bytes.len();
    length / 4 + 100
}

// ─── Requests ─────────────────────────────────────────────────────────────────

/// What is sent to a language model.
#[derive(Debug)]
pub struct LlmRequest {
    pub url: String,
    pub headers: Vec<(String, String)>,
    pub model: String,
    /// The `max_tokens` field.
    pub max_tokens: Option<u32>,
    /// The `num_ctx` option; with it, the reply is not streamed.
    pub context_size: Option<u32>,
    /// The content of the one message, from the user.
    pub prompt: String,
}

/// What a [`LlmRequest`] holds.
#[verifier::ext_equal]
pub struct LlmRequestModel {
    pub url: Seq<char>,
    pub headers: Seq<(Seq<char>, Seq<char>)>,
    pub model: Seq<char>,
    pub max_tokens: Option<u32>,
    pub context_size: Option<u32>,
    pub prompt: Seq<char>,
}

impl DeepView for LlmRequest {
    type V = LlmRequestModel;

    open spec fn deep_view(&self) -> LlmRequestModel {
        LlmRequestModel {
            url: self.url.deep_view(),
            headers: self.headers.deep_view(),
            model: self.model.deep_view(),
            max_tokens: self.max_tokens.deep_view(),
            context_size: self.context_size.deep_view(),
            prompt: self.prompt.deep_view(),
        }
    }
}

/// How long a reply may be, in tokens.
pub open spec fn reply_limit(provider: LlmProvider) -> u32 {
    match provider {
        LlmProvider::Anthropic => 256,
        LlmProvider::OpenAICompatible => 1024,
    }
}

impl LlmConfigModel {
    /// The API key that is sent, which is empty where there is none.
    pub open spec fn sent_key(self) -> Seq<char> {
        match self.api_key {
            Some(k) => k,
            None => ""@,
        }
    }

    /// The headers of a request.
    pub open spec fn headers(self) -> Seq<(Seq<char>, Seq<char>)> {
        let key = self.sent_key();
        match self.provider {
            LlmProvider::Anthropic => seq![
                ("x-api-key"@, key),
                ("anthropic-version"@, "2023-06-01"@),
                ("content-type"@, "application/json"@),
            ],
            LlmProvider::OpenAICompatible => if key.len() == 0 {
                seq![("content-type"@, "application/json"@)]
            } else {
                seq![
                    ("content-type"@, "application/json"@),
                    ("authorization"@, "Bearer "@ + key),
                ]
            },
        }
    }

    /// Whether a request is in Ollama's own format.
    pub open spec fn sends_ollama(self) -> bool {
        self.provider == LlmProvider::OpenAICompatible && self.ollama()
    }

    /// The request for a prompt. `limit` bounds the reply, in tokens.
    pub open spec fn request(self, prompt: Seq<char>, limit: u32) -> LlmRequestModel {
        LlmRequestModel {
            url: self.url(),
            headers: self.headers(),
            model: self.model,
            max_tokens: if self.sends_ollama() {
                None
            } else {
                Some(limit)
            },
            context_size: if self.sends_ollama() {
                Some(self.context_size)
            } else {
                None
            },
            prompt,
        }
    }

    /// The request that asks whether code satisfies an invariant.
    pub open spec fn check_request(
        self,
        code: Seq<char>,
        claim: Seq<char>,
        context: Seq<char>,
    ) -> LlmRequestModel {
        self.request(prompt_text(code, claim, context, self.provider), reply_limit(self.provider))
    }
}

fn header(name: &str, value: &str) -> (r: (String, String))
    ensures
        r.deep_view() == (name@, value@),
{
    (name.to_owned(), value.to_owned())
}

impl LlmConfig {
    fn request_headers(&self) -> (r: Vec<(String, String)>)
        ensures
            r.deep_view() == self.deep_view().headers(),
    {
        let key = match &self.api_key {
            Some(k) => k.as_str(),
            None => "",
        };
        proof {
            reveal_strlit("");
        }
        let mut headers: Vec<(String, String)> = Vec::new();
        match self.provider {
            LlmProvider::Anthropic => {
                append_item(&mut headers, header("x-api-key", key));
                append_item(&mut headers, header("anthropic-version", "2023-06-01"));
                append_item(&mut headers, header("content-type", "application/json"));
            },
            LlmProvider::OpenAICompatible => {
                append_item(&mut headers, header("content-type", "application/json"));
                if !key.is_empty() {
                    let mut bearer = "Bearer ".to_owned();
                    bearer.append(key);
                    append_item(&mut headers, header("authorization", bearer.as_str()));
                }
            },
        }
        assert(headers.deep_view() =~= self.deep_view().headers());
        headers
    }

    /// The request for a prompt, whose reply is at most `limit` tokens long.
    pub fn request(&self, prompt: String, limit: u32) -> (r: LlmRequest)
        ensures
            r.deep_view() == self.deep_view().request(prompt@, limit),
    {
        let ollama = self.provider == LlmProvider::OpenAICompatible && self.is_ollama();
        LlmRequest {
            url: self.api_url(),
            headers: self.request_headers(),
            model: self.model.clone(),
            max_tokens: if ollama {
                None
            } else {
                Some(limit)
            },
            context_size: if ollama {
                Some(self.context_size)
            } else {
                None
            },
            prompt,
        }
    }

    /// The request that asks whether code satisfies an invariant.
    pub fn check_request(&self, code: &str, claim: &str, context: &str) -> (r: LlmRequest)
        ensures
            r.deep_view() == self.deep_view().check_request(code@, claim@, context@),
    {
        let limit: u32 = match self.provider {
            LlmProvider::Anthropic => 256,
            LlmProvider::OpenAICompatible => 1024,
        };
        self.request(build_prompt(code, claim, context, &self.provider), limit)
    }
}

// ─── Replies ──────────────────────────────────────────────────────────────────

/// What follows a reply to a request.
#[derive(Debug)]
pub enum ReplyStep {
    /// The request is to be sent again, after a delay in milliseconds.
    Retry { attempt: u32, delay_ms: u64 },
    /// The request failed.
    Fail(String),
    /// The body of the reply is to be read.
    Read,
}

/// What a [`ReplyStep`] holds.
#[verifier::ext_equal]
pub enum ReplyStepModel {
    Retry { attempt: u32, delay_ms: u64 },
    Fail(Seq<char>),
    Read,
}

impl DeepView for ReplyStep {
    type V = ReplyStepModel;

    open spec fn deep_view(&self) -> ReplyStepModel {
        match *self {
            ReplyStep::Retry { attempt, delay_ms } => ReplyStepModel::Retry { attempt, delay_ms },
            ReplyStep::Fail(message) => ReplyStepModel::Fail(message@),
            ReplyStep::Read => ReplyStepModel::Read,
        }
    }
}

/// The delay before a retry, in milliseconds: it doubles from one retry to the next.
pub open spec fn backoff(attempt: int) -> int
    decreases attempt,
{
    if attempt <= 1 {
        2000
    } else {
        2 * backoff(attempt - 1)
    }
}

/// What follows the reply to the attempt of that number, counted from zero. A rate-limited
/// request is tried again, up to [`MAX_RETRIES`] times.
pub open spec fn reply_step(
    attempt: u32,
    status: u16,
    status_text: Seq<char>,
    body: Seq<char>,
) -> ReplyStepModel {
    if status == 429 {
        if attempt < MAX_RETRIES {
            ReplyStepModel::Retry {
                attempt: (attempt + 1) as u32,
                delay_ms: backoff(attempt + 1) as u64,
            }
        } else {
            ReplyStepModel::Fail(
                "LLM API rate limited after "@ + text::decimal(MAX_RETRIES as nat) + " retries: "@
                    + body,
            )
        }
    } else if status < 200 || status >= 300 {
        ReplyStepModel::Fail("LLM API error ("@ + status_text + "): "@ + body)
    } else {
        ReplyStepModel::Read
    }
}

fn retry_delay(attempt: u32) -> (r: u64)
    requires
        1 <= attempt <= MAX_RETRIES,
    ensures
        r == backoff(attempt as int),
{
    proof {
        reveal_with_fuel(backoff, 6);
    }
    if attempt == 1 {
        INITIAL_BACKOFF_MS
    } else if attempt == 2 {
        2 * INITIAL_BACKOFF_MS
    } else if attempt == 3 {
        4 * INITIAL_BACKOFF_MS
    } else if attempt == 4 {
        8 * INITIAL_BACKOFF_MS
    } else {
        16 * INITIAL_BACKOFF_MS
    }
}

/// Decides what follows the reply to an attempt, counted from zero.
pub fn after_reply(attempt: u32, status: u16, status_text: &str, body: &str) -> (r: ReplyStep)
    ensures
        r.deep_view() == reply_step(attempt, status, status_text@, body@),
{
    if status == 429 {
        if attempt < MAX_RETRIES {
            ReplyStep::Retry { attempt: attempt + 1, delay_ms: retry_delay(attempt + 1) }
        } else {
            let mut message = "LLM API rate limited after ".to_owned();
            message.append(text::decimal_string(5).as_str());
            message.append(" retries: ");
            message.append(body);
            ReplyStep::Fail(message)
        }
    } else if status < 200 || status >= 300 {
        let mut message = "LLM API error (".to_owned();
        message.append(status_text);
        message.append("): ");
        message.append(body);
        ReplyStep::Fail(message)
    } else {
        ReplyStep::Read
    }
}

/// The texts at the places of a reply where a provider may put its answer.
#[derive(Debug)]
pub struct ReplyTexts {
    /// The text of the first entry of `content`.
    pub anthropic: Option<String>,
    /// The content of `message`.
    pub ollama: Option<String>,
    /// The content of the message of the first entry of `choices`.
    pub openai: Option<String>,
    /// The reply, formatted.
    pub whole: String,
}

/// What a [`ReplyTexts`] holds.
#[verifier::ext_equal]
pub struct ReplyTextsModel {
    pub anthropic: Option<Seq<char>>,
    pub ollama: Option<Seq<char>>,
    pub openai: Option<Seq<char>>,
    pub whole: Seq<char>,
}

impl DeepView for ReplyTexts {
    type V = ReplyTextsModel;

    open spec fn deep_view(&self) -> ReplyTextsModel {
        ReplyTextsModel {
            anthropic: self.anthropic.deep_view(),
            ollama: self.ollama.deep_view(),
            openai: self.openai.deep_view(),
            whole: self.whole.deep_view(),
        }
    }
}

impl ReplyTextsModel {
    /// The answer of a provider.
    pub open spec fn answer(self, provider: LlmProvider) -> Result<Seq<char>, Seq<char>> {
        match provider {
            LlmProvider::Anthropic => match self.anthropic {
                Some(t) => Ok(t),
                None => Err("Unexpected Anthropic response format"@),
            },
            LlmProvider::OpenAICompatible => match self.ollama {
                Some(t) => Ok(t),
                None => match self.openai {
                    Some(t) => Ok(t),
                    None => Err("Unexpected response format: "@ + self.whole),
                },
            },
        }
    }
}

/// Picks the answer of a provider out of its reply.
pub fn answer_text(texts: &ReplyTexts, provider: &LlmProvider) -> (r: Result<String, String>)
    ensures
        result_view(r) == texts.deep_view().answer(*provider),
{
    match provider {
        LlmProvider::Anthropic => match &texts.anthropic {
            Some(t) => Ok(t.clone()),
            None => Err("Unexpected Anthropic response format".to_owned()),
        },
        LlmProvider::OpenAICompatible => match &texts.ollama {
            Some(t) => Ok(t.clone()),
            None => match &texts.openai {
                Some(t) => Ok(t.clone()),
                None => {
                    let mut message = "Unexpected response format: ".to_owned();
                    message.append(texts.whole.as_str());
                    Err(message)
                },
            },
        },
    }
}

/// An answer without the fence of a code block round it.
pub open spec fn without_fence(s: Seq<char>) -> Seq<char> {
    if text::starts_with(s, "```"@) {
        text::trim(
            text::without_suffix(
                text::without_prefix(text::without_prefix(s, "```json"@), "```"@),
                "```"@,
            ),
        )
    } else {
        s
    }
}

/// The JSON text in an answer: without blanks, an echo of the prompt's end, and the fence of
/// a code block round it.
pub open spec fn json_text(answer: Seq<char>) -> Seq<char> {
    without_fence(text::trim(text::without_suffix(text::trim(answer), "/no_think"@)))
}

/// Takes the fence of a code block from an answer.
pub fn strip_fence(s: &[char]) -> (r: &[char])
    ensures
        r@ == without_fence(s@),
{
    proof {
        reveal_strlit("```");
        reveal_strlit("```json");
    }
    if text::chars_start_with(s, "```") {
        let inner = text::strip_prefixes(text::strip_prefixes(s, "```json"), "```");
        text::trim_chars(text::strip_suffixes(inner, "```"))
    } else {
        s
    }
}

/// Takes the JSON text out of an answer.
pub fn clean_answer(answer: &str) -> (r: String)
    ensures
        r@ == json_text(answer@),
{
    proof {
        reveal_strlit("/no_think");
    }
    let chars = text::chars_of(answer);
    let t = text::trim_chars(chars.as_slice());
    text::string_of(strip_fence(text::trim_chars(text::strip_suffixes(t, "/no_think"))))
}

/// What a model's verdict says of an invariant.
pub open spec fn llm_verdict(verdict: (bool, Seq<char>)) -> InvariantResultModel {
    InvariantResultModel { satisfies: verdict.0, reasoning: verdict.1, tier: "llm-verified"@ }
}

pub open spec fn unreadable_answer(error: Seq<char>, json: Seq<char>) -> Seq<char> {
    "Failed to parse LLM response as JSON: "@ + error + ". Raw response: "@ + json
}

/// The result of a check from the verdict that was read from the JSON text of an answer, or
/// from the error that came of reading it.
pub fn conclude_answer(verdict: Result<(bool, String), String>, json: &str) -> (r: Result<
    InvariantResult,
    String,
>)
    ensures
        result_view(r) == (match verdict {
            Ok(v) => Ok(llm_verdict((v.0, v.1@))),
            Err(e) => Err(unreadable_answer(e@, json@)),
        }),
{
    match verdict {
        Ok((satisfies, reasoning)) => Ok(
            InvariantResult { satisfies, reasoning, tier: "llm-verified".to_owned() },
        ),
        Err(e) => {
            let mut message = "Failed to parse LLM response as JSON: ".to_owned();
            message.append(e.as_str());
            message.append(". Raw response: ");
            message.append(json);
            Err(message)
        },
    }
}

// ─── Cached results ───────────────────────────────────────────────────────────

/// A result of a language model that was kept.
#[derive(Debug)]
pub struct CachedResult {
    pub satisfies: bool,
    pub reasoning: String,
    pub model: String,
    pub timestamp: String,
    pub code_hash: String,
    pub invariant_hash: String,
}

/// What a [`CachedResult`] holds.
#[verifier::ext_equal]
pub struct CachedResultModel {
    pub satisfies: bool,
    pub reasoning: Seq<char>,
    pub model: Seq<char>,
    pub timestamp: Seq<char>,
    pub code_hash: Seq<char>,
    pub invariant_hash: Seq<char>,
}

impl DeepView for CachedResult {
    type V = CachedResultModel;

    open spec fn deep_view(&self) -> CachedResultModel {
        CachedResultModel {
            satisfies: self.satisfies,
            reasoning: self.reasoning.deep_view(),
            model: self.model.deep_view(),
            timestamp: self.timestamp.deep_view(),
            code_hash: self.code_hash.deep_view(),
            invariant_hash: self.invariant_hash.deep_view(),
        }
    }
}

impl Clone for CachedResult {
    fn clone(&self) -> (r: Self)
        ensures
            r.deep_view() == self.deep_view(),
    {
        self.duplicate()
    }
}

impl Duplicate for CachedResult {
    fn duplicate(&self) -> (r: Self) {
        CachedResult {
            satisfies: self.satisfies,
            reasoning: self.reasoning.duplicate(),
            model: self.model.duplicate(),
            timestamp: self.timestamp.duplicate(),
            code_hash: self.code_hash.duplicate(),
            invariant_hash: self.invariant_hash.duplicate(),
        }
    }
}

/// The key of a result: the SHA-256 hash of the code, a bar, and the invariant.
pub open spec fn key_of(code: Seq<char>, claim: Seq<char>) -> Seq<char> {
    hash::full_hash(vstd::utf8::encode_utf8(code + "|"@ + claim))
}

/// The name of the file that holds the result of a key: its first 16 bytes, where it has as
/// many and they are whole characters.
pub open spec fn cache_file_of(key: Seq<char>) -> Option<Seq<char>> {
    if scan::byte_offset(key, key.len() as int) < 16 {
        None
    } else {
        match scan::cut(key, 0, 16) {
            Some(end) => Some(key.subrange(0, end) + ".json"@),
            None => None,
        }
    }
}

/// Computes the key of a result from code and invariant.
pub fn cache_key(code: &str, claim: &str) -> (r: String)
    ensures
        r@ == key_of(code@, claim@),
        r@.len() == 64,
        cache_file_of(r@) == Some(r@.take(16) + ".json"@),
{
    let mut all = code.to_owned();
    all.append("|");
    all.append(claim);
    let key = hash::full_hash_of(all.as_str().as_bytes());
    proof {
        hash::lemma_hex_ascii(hash::sha256_digest(vstd::utf8::encode_utf8(all@)));
        scan::lemma_cut_ascii(key@, 0, 16);
        lemma_bytes_at_least(key@, 64);
        assert(key@.subrange(0, 16) =~= key@.take(16));
    }
    key
}

proof fn lemma_bytes_at_least(s: Seq<char>, at: int)
    requires
        0 <= at <= s.len(),
    ensures
        scan::byte_offset(s, at) >= at,
    decreases at,
{
    if at > 0 {
        lemma_bytes_at_least(s, at - 1);
    }
}

/// The name of the file that holds the result of a key.
pub fn cache_file_name(key: &str) -> (r: String)
    requires
        cache_file_of(key@) is Some,
    ensures
        Some(r@) == cache_file_of(key@),
{
    let chars = text::chars_of(key);
    match scan::cut_bytes(chars.as_slice(), 0, 16) {
        Some(end) => {
            let mut name = text::piece(chars.as_slice(), 0, end);
            name.append(".json");
            name
        },
        None => String::new(),
    }
}

} // verus!

//! The configuration of a project, and what is made of it.
use vstd::prelude::*;

use crate::behavioral::llm::{
    check_mode_named, parse_check_mode, provider_of, ApiKeys, ApiKeysModel,
    DEFAULT_LOCAL_LLM_COOLDOWN_SECS, DEFAULT_OLLAMA_NUM_CTX, LlmCheckMode, LlmConfig,
    LlmConfigModel,
};
use crate::data::{keys, lookup, Duplicate, StringMap};
use crate::text;

verus! {

/// What is configured of a provider of language models.
#[derive(Debug)]
pub struct ProviderFileConfig {
    pub endpoint: Option<String>,
    pub model: Option<String>,
    pub api_key: Option<String>,
    pub cooldown_secs: Option<u64>,
    pub context_size: Option<u32>,
}

/// What a [`ProviderFileConfig`] holds.
#[verifier::ext_equal]
pub struct ProviderFileConfigModel {
    pub endpoint: Option<Seq<char>>,
    pub model: Option<Seq<char>>,
    pub api_key: Option<Seq<char>>,
    pub cooldown_secs: Option<u64>,
    pub context_size: Option<u32>,
}

impl DeepView for ProviderFileConfig {
    type V = ProviderFileConfigModel;

    open spec fn deep_view(&self) -> ProviderFileConfigModel {
        ProviderFileConfigModel {
            endpoint: self.endpoint.deep_view(),
            model: self.model.deep_view(),
            api_key: self.api_key.deep_view(),
            cooldown_secs: self.cooldown_secs.deep_view(),
            context_size: self.context_size.deep_view(),
        }
    }
}

impl Clone for ProviderFileConfig {
    fn clone(&self) -> (r: Self)
        ensures
            r.deep_view() == self.deep_view(),
    {
        self.duplicate()
    }
}

impl Duplicate for ProviderFileConfig {
    fn duplicate(&self) -> (r: Self) {
        ProviderFileConfig {
            endpoint: self.endpoint.duplicate(),
            model: self.model.duplicate(),
            api_key: self.api_key.duplicate(),
            cooldown_secs: self.cooldown_secs.duplicate(),
            context_size: self.context_size.duplicate(),
        }
    }
}

/// What is configured of language models.
#[derive(Debug)]
pub struct LlmFileConfig {
    /// The mode of behavioral checks.
    pub check: Option<String>,
    /// The name of the provider that is used unless another is chosen.
    pub default: Option<String>,
    /// Providers by their names.
    pub providers: StringMap<ProviderFileConfig>,
    /// The one provider, where none have names.
    pub flat: ProviderFileConfig,
}

/// What a [`LlmFileConfig`] holds.
#[verifier::ext_equal]
pub struct LlmFileConfigModel {
    pub check: Option<Seq<char>>,
    pub default: Option<Seq<char>>,
    pub providers: Seq<(Seq<char>, ProviderFileConfigModel)>,
    pub flat: ProviderFileConfigModel,
}

impl DeepView for LlmFileConfig {
    type V = LlmFileConfigModel;

    open spec fn deep_view(&self) -> LlmFileConfigModel {
        LlmFileConfigModel {
            check: self.check.deep_view(),
            default: self.default.deep_view(),
            providers: self.providers.deep_view(),
            flat: self.flat.deep_view(),
        }
    }
}

/// What the command line says of language models.
#[derive(Debug)]
pub struct LlmOverrides {
    pub check: Option<String>,
    pub model: Option<String>,
    pub endpoint: Option<String>,
    pub api_key: Option<String>,
    pub provider: Option<String>,
}

/// What a [`LlmOverrides`] holds.
#[verifier::ext_equal]
pub struct LlmOverridesModel {
    pub check: Option<Seq<char>>,
    pub model: Option<Seq<char>>,
    pub endpoint: Option<Seq<char>>,
    pub api_key: Option<Seq<char>>,
    pub provider: Option<Seq<char>>,
}

impl DeepView for LlmOverrides {
    type V = LlmOverridesModel;

    open spec fn deep_view(&self) -> LlmOverridesModel {
        LlmOverridesModel {
            check: self.check.deep_view(),
            model: self.model.deep_view(),
            endpoint: self.endpoint.deep_view(),
            api_key: self.api_key.deep_view(),
            provider: self.provider.deep_view(),
        }
    }
}

/// The least of the first `k` keys.
pub open spec fn least_key(entries: Seq<(Seq<char>, ProviderFileConfigModel)>, k: int) -> int
    decreases k,
{
    if k <= 1 || k > entries.len() {
        0
    } else {
        let before = least_key(entries, k - 1);
        if text::precedes(entries[k - 1].0, entries[before].0) {
            k - 1
        } else {
            before
        }
    }
}

/// Nothing configured of a provider.
pub open spec fn unconfigured() -> ProviderFileConfigModel {
    ProviderFileConfigModel {
        endpoint: None,
        model: None,
        api_key: None,
        cooldown_secs: None,
        context_size: None,
    }
}

/// The provider that is chosen, and a warning where there is one: the provider of the name
/// that the command line or else the configuration gives; without a name, the one whose name
/// comes first; and where none have names, the one that is configured.
pub open spec fn chosen_provider(llm: LlmFileConfigModel, named: Option<Seq<char>>) -> (
    ProviderFileConfigModel,
    Option<Seq<char>>,
) {
    let name = if named is Some {
        named
    } else {
        llm.default
    };
    if llm.providers.len() == 0 {
        (llm.flat, None)
    } else {
        match name {
            Some(n) => match lookup(llm.providers, n) {
                Some(p) => (p, None),
                None => (
                    unconfigured(),
                    Some(
                        "Warning: provider '"@ + n + "' not found in config. Available: "@
                            + text::join(keys(llm.providers), ", "@),
                    ),
                ),
            },
            None => {
                let (key, p) = llm.providers[least_key(
                    llm.providers,
                    llm.providers.len() as int,
                )];
                (p, Some("Warning: no default provider set, using '"@ + key + "'"@))
            },
        }
    }
}

/// The mode that a word names, where it names one, or else another mode.
pub open spec fn mode_or(word: Option<Seq<char>>, other: LlmCheckMode) -> LlmCheckMode {
    match word {
        Some(w) => match check_mode_named(w) {
            Ok(mode) => mode,
            Err(_) => other,
        },
        None => other,
    }
}

pub open spec fn first_of<T>(a: Option<T>, b: Option<T>, c: T) -> T {
    match a {
        Some(v) => v,
        None => match b {
            Some(v) => v,
            None => c,
        },
    }
}

/// The configuration for language models: the command line comes before the environment, this
/// before the configuration file, and that before what holds otherwise, where `model` is the
/// model that is asked. The environment gives nothing but API keys.
pub open spec fn llm_config(
    llm: LlmFileConfigModel,
    cli: LlmOverridesModel,
    environment: ApiKeysModel,
    model: Seq<char>,
) -> LlmConfigModel {
    let p = chosen_provider(llm, cli.provider).0;
    let endpoint = first_of(cli.endpoint, p.endpoint, "https://api.anthropic.com"@);
    let found = environment.for_provider(provider_of(endpoint));
    LlmConfigModel {
        endpoint,
        model: first_of(cli.model, p.model, model),
        api_key: if cli.api_key is Some {
            cli.api_key
        } else if found is Some {
            found
        } else {
            p.api_key
        },
        check_mode: mode_or(cli.check, mode_or(llm.check, LlmCheckMode::Off)),
        provider: provider_of(endpoint),
        cooldown_secs: first_of(None, p.cooldown_secs, DEFAULT_LOCAL_LLM_COOLDOWN_SECS),
        context_size: first_of(None, p.context_size, DEFAULT_OLLAMA_NUM_CTX),
    }
}

fn find_least(providers: &StringMap<ProviderFileConfig>) -> (r: usize)
    requires
        providers.deep_view().len() > 0,
    ensures
        r == least_key(providers.deep_view(), providers.deep_view().len() as int),
        r < providers.deep_view().len(),
{
    let ghost all = providers.deep_view();
    let n: usize = providers.len();
    let mut least: usize = 0;
    let mut k: usize = 1;
    while k < n
        invariant
            1 <= k <= n == all.len(),
            all == providers.deep_view(),
            least < k,
            least == least_key(all, k as int),
        decreases n - k,
    {
        if text::comes_before(providers.key(k), providers.key(least)) {
            least = k;
        }
        k += 1;
    }
    least
}

fn no_provider() -> (r: ProviderFileConfig)
    ensures
        r.deep_view() == unconfigured(),
{
    ProviderFileConfig {
        endpoint: None,
        model: None,
        api_key: None,
        cooldown_secs: None,
        context_size: None,
    }
}

/// Chooses the provider, and warns where the choice may surprise.
pub fn choose_provider(llm: &LlmFileConfig, named: &Option<String>) -> (r: (
    ProviderFileConfig,
    Option<String>,
))
    ensures
        r.deep_view() == chosen_provider(llm.deep_view(), named.deep_view()),
{
    if llm.providers.is_empty() {
        return (llm.flat.duplicate(), None);
    }
    let name = if named.is_some() {
        named
    } else {
        &llm.default
    };
    match name {
        Some(n) => match llm.providers.get(n.as_str()) {
            Some(p) => (p.duplicate(), None),
            None => {
                let mut warning = "Warning: provider '".to_owned();
                warning.append(n.as_str());
                warning.append("' not found in config. Available: ");
                warning.append(
                    text::join_strings(llm.providers.keys().as_slice(), ", ").as_str(),
                );
                (no_provider(), Some(warning))
            },
        },
        None => {
            let i: usize = find_least(&llm.providers);
            let mut warning = "Warning: no default provider set, using '".to_owned();
            warning.append(llm.providers.key(i));
            warning.append("'");
            (llm.providers.value(i).duplicate(), Some(warning))
        },
    }
}

fn set_mode(config: &mut LlmConfig, word: &Option<String>)
    ensures
        final(config).deep_view() == (LlmConfigModel {
            check_mode: mode_or(word.deep_view(), old(config).check_mode),
            ..old(config).deep_view()
        }),
{
    match word {
        Some(w) => match parse_check_mode(w.as_str()) {
            Ok(mode) => {
                config.check_mode = mode;
            },
            Err(_) => {},
        },
        None => {},
    }
}

/// Resolves the configuration for language models, and gives a warning where there is one.
pub fn load_llm_config(
    llm: &LlmFileConfig,
    cli: &LlmOverrides,
    environment: &ApiKeys,
    model: &str,
) -> (r: (LlmConfig, Option<String>))
    ensures
        r.0.deep_view() == llm_config(
            llm.deep_view(),
            cli.deep_view(),
            environment.deep_view(),
            model@,
        ),
        r.1.deep_view() == chosen_provider(llm.deep_view(), cli.deep_view().provider).1,
{
    let mut config = LlmConfig::new(model);
    let (p, warning) = choose_provider(llm, &cli.provider);
    match &p.endpoint {
        Some(e) => {
            config.endpoint = e.clone();
        },
        None => {},
    }
    match &p.model {
        Some(m) => {
            config.model = m.clone();
        },
        None => {},
    }
    if p.api_key.is_some() {
        config.api_key = p.api_key.duplicate();
    }
    match p.cooldown_secs {
        Some(c) => {
            config.cooldown_secs = c;
        },
        None => {},
    }
    match p.context_size {
        Some(c) => {
            config.context_size = c;
        },
        None => {},
    }
    set_mode(&mut config, &llm.check);
    match &cli.endpoint {
        Some(e) => {
            config.endpoint = e.clone();
        },
        None => {},
    }
    match &cli.model {
        Some(m) => {
            config.model = m.clone();
        },
        None => {},
    }
    set_mode(&mut config, &cli.check);
    config.provider = LlmConfig::detect_provider(config.endpoint.as_str());
    config.resolve_api_key(environment);
    if cli.api_key.is_some() {
        config.api_key = cli.api_key.duplicate();
    }
    (config, warning)
}

// ─── Laws ─────────────────────────────────────────────────────────────────────

/// What the command line says holds, whatever is configured.
pub proof fn command_line_comes_first(
    llm: LlmFileConfigModel,
    cli: LlmOverridesModel,
    environment: ApiKeysModel,
    model: Seq<char>,
)
    ensures
        cli.endpoint matches Some(e) ==> llm_config(llm, cli, environment, model).endpoint == e,
        cli.model matches Some(m) ==> llm_config(llm, cli, environment, model).model == m,
        cli.api_key is Some ==> llm_config(llm, cli, environment, model).api_key == cli.api_key,
        cli.check matches Some(w) ==> (check_mode_named(w) matches Ok(mode) ==> llm_config(
            llm,
            cli,
            environment,
            model,
        ).check_mode == mode),
{
}

/// What the environment says of keys holds before what is configured in the file, and this
/// where the environment and the command line say nothing.
pub proof fn environment_comes_before_the_file(
    llm: LlmFileConfigModel,
    cli: LlmOverridesModel,
    environment: ApiKeysModel,
    model: Seq<char>,
)
    requires
        cli.api_key is None,
    ensures
        ({
            let config = llm_config(llm, cli, environment, model);
            let found = environment.for_provider(config.provider);
            &&& found is Some ==> config.api_key == found
            &&& found is None ==> config.api_key == chosen_provider(llm, cli.provider).0.api_key
        }),
{
}

/// Without any word on the mode, no behavioral checks are made.
pub proof fn checks_are_off_by_default(
    llm: LlmFileConfigModel,
    cli: LlmOverridesModel,
    environment: ApiKeysModel,
    model: Seq<char>,
)
    requires
        llm.check is None,
        cli.check is None,
    ensures
        llm_config(llm, cli, environment, model).check_mode == LlmCheckMode::Off,
{
}

/// The provider goes with the endpoint, wherever that came from.
pub proof fn provider_goes_with_endpoint(
    llm: LlmFileConfigModel,
    cli: LlmOverridesModel,
    environment: ApiKeysModel,
    model: Seq<char>,
)
    ensures
        llm_config(llm, cli, environment, model).provider == provider_of(
            llm_config(llm, cli, environment, model).endpoint,
        ),
{
}

} // verus!

//! Module specifications, and the defaults that directories set for them.
use vstd::prelude::*;

use crate::data::{
    add_names, has_key, keys, lemma_key_index, list_contains, lookup, lookup_after_insert,
    lookup_of_other_key, with_entry, with_known_names, with_names, with_names_associates, Duplicate,
    StringMap,
};
use crate::extractors::{ExtractedModule, ExtractedModuleModel};
use crate::text;

verus! {

// ─── Layers and stability ─────────────────────────────────────────────────────

/// Architectural layer: a name such as `infrastructure` or `domain`.
///
/// Names of layers are compared in lowercase. Which layer may depend on which is defined by
/// [`LayerConfig`].
#[derive(Debug, PartialEq, Eq, Hash)]
pub struct Layer(pub String);

impl DeepView for Layer {
    type V = Seq<char>;

    open spec fn deep_view(&self) -> Seq<char> {
        self.0@
    }
}

impl Clone for Layer {
    fn clone(&self) -> (r: Self)
        ensures
            r.deep_view() == self.deep_view(),
    {
        self.duplicate()
    }
}

impl Duplicate for Layer {
    fn duplicate(&self) -> (r: Self) {
        Layer(self.0.clone())
    }
}

impl Layer {
    pub fn new(name: &str) -> (r: Self)
        ensures
            r.deep_view() == text::lowercase(name@),
    {
        Layer(name.to_lowercase())
    }
}

/// How often a module changes.
#[derive(Debug, Clone, Copy, PartialEq, Eq, Structural)]
pub enum Stability {
    /// Core abstractions, which rarely change
    Stable,
    /// Normal modules
    Normal,
    /// Features, which change often
    Volatile,
}

impl DeepView for Stability {
    type V = Stability;

    open spec fn deep_view(&self) -> Stability {
        *self
    }
}

impl Duplicate for Stability {
    fn duplicate(&self) -> (r: Self) {
        *self
    }
}

/// How little a module changes: the more, the higher.
pub open spec fn steadiness(s: Stability) -> int {
    match s {
        Stability::Stable => 2,
        Stability::Normal => 1,
        Stability::Volatile => 0,
    }
}

impl Stability {
    /// Whether a module of this stability may depend on one of another: only on what is at
    /// least as stable as itself.
    pub fn can_depend_on(&self, other: &Stability) -> (b: bool)
        ensures
            b == (steadiness(*self) <= steadiness(*other)),
    {
        match (self, other) {
            (Stability::Stable, Stability::Stable) => true,
            (Stability::Stable, _) => false,
            (Stability::Normal, Stability::Volatile) => false,
            (Stability::Normal, _) => true,
            (Stability::Volatile, _) => true,
        }
    }
}

/// Which layer may depend on which: for each layer, those that it may depend on.
///
/// A layer may always depend on itself. A layer that is not listed may depend on any other.
#[derive(Debug)]
pub struct LayerConfig {
    allowed_deps: StringMap<Vec<String>>,
}

impl DeepView for LayerConfig {
    type V = Seq<(Seq<char>, Seq<Seq<char>>)>;

    closed spec fn deep_view(&self) -> Seq<(Seq<char>, Seq<Seq<char>>)> {
        self.allowed_deps.deep_view()
    }
}

impl Clone for LayerConfig {
    fn clone(&self) -> (r: Self)
        ensures
            r.deep_view() == self.deep_view(),
    {
        self.duplicate()
    }
}

impl Duplicate for LayerConfig {
    fn duplicate(&self) -> (r: Self) {
        LayerConfig { allowed_deps: self.allowed_deps.duplicate() }
    }
}

/// Whether a layer may depend on another, by what each layer may depend on.
pub open spec fn layer_allows(
    allowed: Seq<(Seq<char>, Seq<Seq<char>>)>,
    source: Seq<char>,
    target: Seq<char>,
) -> bool {
    let s = text::lowercase(source);
    let t = text::lowercase(target);
    s == t || match lookup(allowed, s) {
        Some(deps) => deps.contains(t),
        None => true,
    }
}

/// The built-in layers: each may depend on all that stand before it.
pub open spec fn builtin_layers() -> Seq<(Seq<char>, Seq<Seq<char>>)> {
    seq![
        ("infrastructure"@, Seq::empty()),
        ("domain"@, seq!["infrastructure"@]),
        ("application"@, seq!["domain"@, "infrastructure"@]),
        ("interface"@, seq!["application"@, "domain"@, "infrastructure"@]),
    ]
}

/// Names in lowercase.
pub open spec fn lowercased(names: Seq<Seq<char>>) -> Seq<Seq<char>> {
    names.map_values(|n: Seq<char>| text::lowercase(n))
}

/// What the first `n` layers of a list may depend on: each on all layers behind it.
pub open spec fn linear_layers(layers: Seq<Seq<char>>, n: int) -> Seq<(Seq<char>, Seq<Seq<char>>)>
    decreases n,
{
    if n <= 0 || n > layers.len() {
        Seq::empty()
    } else {
        with_entry(
            linear_layers(layers, n - 1),
            text::lowercase(layers[n - 1]),
            lowercased(layers.skip(n)),
        )
    }
}

/// What the first `n` layers of a graph may depend on.
pub open spec fn dag_layers(dag: Seq<(Seq<char>, Seq<Seq<char>>)>, n: int) -> Seq<
    (Seq<char>, Seq<Seq<char>>),
>
    decreases n,
{
    if n <= 0 || n > dag.len() {
        Seq::empty()
    } else {
        with_entry(dag_layers(dag, n - 1), text::lowercase(dag[n - 1].0), lowercased(dag[n - 1].1))
    }
}

/// The names from the `from`-th on, in lowercase.
fn lowercase_from(names: &[String], from: usize) -> (r: Vec<String>)
    requires
        from <= names@.len(),
    ensures
        r.deep_view() == lowercased(names.deep_view().skip(from as int)),
{
    let mut out: Vec<String> = Vec::new();
    let ghost all = lowercased(names.deep_view().skip(from as int));
    let mut i: usize = from;
    while i < names.len()
        invariant
            from <= i <= names@.len(),
            out@.len() == i - from,
            all == lowercased(names.deep_view().skip(from as int)),
            forall|j: int| 0 <= j < i - from ==> (#[trigger] out@[j])@ == all[j],
        decreases names@.len() - i,
    {
        assert(names.deep_view()[i as int] == names@[i as int]@);
        assert(names.deep_view().skip(from as int)[i - from] == names@[i as int]@);
        out.push(names[i].as_str().to_lowercase());
        i += 1;
    }
    assert(out.deep_view() =~= all);
    out
}

impl LayerConfig {
    /// Every layer is listed once.
    pub closed spec fn wf(&self) -> bool {
        self.allowed_deps.wf()
    }

    /// The four built-in layers.
    pub fn builtin() -> (r: Self)
        ensures
            r.deep_view() == builtin_layers(),
            r.wf(),
    {
        let mut allowed: StringMap<Vec<String>> = StringMap::new();
        let none: Vec<String> = Vec::new();
        let infra = "infrastructure".to_owned();
        let domain = "domain".to_owned();
        let application = "application".to_owned();
        let interface = "interface".to_owned();
        let for_domain: Vec<String> = vec![infra.clone()];
        let for_application: Vec<String> = vec![domain.clone(), infra.clone()];
        let for_interface: Vec<String> = vec![application.clone(), domain.clone(), infra.clone()];
        proof {
            reveal_strlit("infrastructure");
            reveal_strlit("domain");
            reveal_strlit("application");
            reveal_strlit("interface");
            assert("infrastructure"@.len() == 14);
            assert("domain"@.len() == 6);
            assert("application"@.len() == 11);
            assert("interface"@.len() == 9);
            assert(none.deep_view() =~= Seq::empty());
            assert(for_domain.deep_view() =~= seq!["infrastructure"@]);
            assert(for_application.deep_view() =~= seq!["domain"@, "infrastructure"@]);
            assert(for_interface.deep_view() =~= seq![
                "application"@,
                "domain"@,
                "infrastructure"@,
            ]);
        }
        allowed.insert(infra, none);
        proof {
            lemma_key_index(Seq::<(Seq<char>, Seq<Seq<char>>)>::empty(), "infrastructure"@);
        }
        let ghost one = allowed.deep_view();
        assert(one =~= builtin_layers().take(1));
        allowed.insert(domain, for_domain);
        proof {
            lemma_key_index(one, "domain"@);
        }
        let ghost two = allowed.deep_view();
        assert(two =~= builtin_layers().take(2));
        allowed.insert(application, for_application);
        proof {
            lemma_key_index(two, "application"@);
        }
        let ghost three = allowed.deep_view();
        assert(three =~= builtin_layers().take(3));
        allowed.insert(interface, for_interface);
        proof {
            lemma_key_index(three, "interface"@);
        }
        assert(allowed.deep_view() =~= builtin_layers());
        LayerConfig { allowed_deps: allowed }
    }

    /// Layers in a line: each may depend on all that follow it.
    pub fn from_linear(layers: &[String]) -> (r: Self)
        ensures
            r.deep_view() == linear_layers(layers.deep_view(), layers@.len() as int),
            r.wf(),
    {
        let mut allowed: StringMap<Vec<String>> = StringMap::new();
        let mut i: usize = 0;
        while i < layers.len()
            invariant
                i <= layers@.len(),
                allowed.deep_view() == linear_layers(layers.deep_view(), i as int),
                allowed.wf(),
            decreases layers@.len() - i,
        {
            assert(layers.deep_view()[i as int] == layers@[i as int]@);
            let deps = lowercase_from(layers, i + 1);
            allowed.insert(layers[i].as_str().to_lowercase(), deps);
            i += 1;
        }
        LayerConfig { allowed_deps: allowed }
    }

    /// Layers in a graph: each lists those that it may depend on.
    pub fn from_dag(dag: &StringMap<Vec<String>>) -> (r: Self)
        ensures
            r.deep_view() == dag_layers(dag.deep_view(), dag.deep_view().len() as int),
            r.wf(),
    {
        let mut allowed: StringMap<Vec<String>> = StringMap::new();
        let mut i: usize = 0;
        while i < dag.len()
            invariant
                i <= dag.deep_view().len(),
                allowed.deep_view() == dag_layers(dag.deep_view(), i as int),
                allowed.wf(),
            decreases dag.deep_view().len() - i,
        {
            let names = dag.value(i);
            assert(names.deep_view().skip(0) =~= names.deep_view());
            let deps = lowercase_from(names.as_slice(), 0);
            allowed.insert(dag.key(i).to_lowercase(), deps);
            i += 1;
        }
        LayerConfig { allowed_deps: allowed }
    }

    /// Whether the layer `source` may depend on the layer `target`.
    pub fn can_depend_on(&self, source: &str, target: &str) -> (b: bool)
        ensures
            b == layer_allows(self.deep_view(), source@, target@),
    {
        let s = source.to_lowercase();
        let t = target.to_lowercase();
        if s == t {
            return true;
        }
        match self.allowed_deps.get(s.as_str()) {
            Some(deps) => list_contains(deps.as_slice(), &t),
            None => true,
        }
    }
}

// ─── Defaults ─────────────────────────────────────────────────────────────────

/// Defaults of a directory for the specs in it.
/// A field that is not set is told apart from one that is set to nothing. For single values a
/// directory overrides the one above it; lists are united with those of the one above.
#[derive(Debug)]
pub struct SpecDefaults {
    pub language: Option<String>,
    pub layer: Option<Layer>,
    pub context: Option<String>,
    pub stability: Option<Stability>,
    pub forbidden_deps: Option<Vec<String>>,
    pub external_deps: Option<Vec<String>>,
    pub forbidden_external: Option<Vec<String>>,
}

/// What a [`SpecDefaults`] holds.
#[verifier::ext_equal]
pub struct SpecDefaultsModel {
    pub language: Option<Seq<char>>,
    pub layer: Option<Seq<char>>,
    pub context: Option<Seq<char>>,
    pub stability: Option<Stability>,
    pub forbidden_deps: Option<Seq<Seq<char>>>,
    pub external_deps: Option<Seq<Seq<char>>>,
    pub forbidden_external: Option<Seq<Seq<char>>>,
}

impl DeepView for SpecDefaults {
    type V = SpecDefaultsModel;

    open spec fn deep_view(&self) -> SpecDefaultsModel {
        SpecDefaultsModel {
            language: self.language.deep_view(),
            layer: self.layer.deep_view(),
            context: self.context.deep_view(),
            stability: self.stability.deep_view(),
            forbidden_deps: self.forbidden_deps.deep_view(),
            external_deps: self.external_deps.deep_view(),
            forbidden_external: self.forbidden_external.deep_view(),
        }
    }
}

impl Clone for SpecDefaults {
    fn clone(&self) -> (r: Self)
        ensures
            r.deep_view() == self.deep_view(),
    {
        self.duplicate()
    }
}

impl Duplicate for SpecDefaults {
    fn duplicate(&self) -> (r: Self) {
        SpecDefaults {
            language: self.language.duplicate(),
            layer: self.layer.duplicate(),
            context: self.context.duplicate(),
            stability: self.stability.duplicate(),
            forbidden_deps: self.forbidden_deps.duplicate(),
            external_deps: self.external_deps.duplicate(),
            forbidden_external: self.forbidden_external.duplicate(),
        }
    }
}

/// The value of the child, or else that of the parent.
pub open spec fn overriding<T>(parent: Option<T>, child: Option<T>) -> Option<T> {
    match child {
        Some(v) => Some(v),
        None => parent,
    }
}

/// The union of two optional lists, in order.
pub open spec fn united(parent: Option<Seq<Seq<char>>>, child: Option<Seq<Seq<char>>>) -> Option<
    Seq<Seq<char>>,
> {
    match (parent, child) {
        (Some(p), Some(c)) => Some(with_names(p, c)),
        (Some(p), None) => Some(p),
        (None, c) => c,
    }
}

/// Defaults with those of a child directory on top of them.
pub open spec fn merged(parent: SpecDefaultsModel, child: SpecDefaultsModel) -> SpecDefaultsModel {
    SpecDefaultsModel {
        language: overriding(parent.language, child.language),
        layer: overriding(parent.layer, child.layer),
        context: overriding(parent.context, child.context),
        stability: overriding(parent.stability, child.stability),
        forbidden_deps: united(parent.forbidden_deps, child.forbidden_deps),
        external_deps: united(parent.external_deps, child.external_deps),
        forbidden_external: united(parent.forbidden_external, child.forbidden_external),
    }
}

/// Defaults that set nothing.
pub open spec fn no_defaults() -> SpecDefaultsModel {
    SpecDefaultsModel {
        language: None,
        layer: None,
        context: None,
        stability: None,
        forbidden_deps: None,
        external_deps: None,
        forbidden_external: None,
    }
}

/// The defaults of a chain of directories, the outermost first.
pub open spec fn merged_chain(chain: Seq<SpecDefaultsModel>) -> SpecDefaultsModel
    decreases chain.len(),
{
    if chain.len() == 0 {
        no_defaults()
    } else {
        merged(merged_chain(chain.drop_last()), chain.last())
    }
}

fn merge_optional<T: Duplicate>(parent: &Option<T>, child: &Option<T>) -> (r: Option<T>)
    ensures
        r.deep_view() == overriding(parent.deep_view(), child.deep_view()),
{
    match child {
        Some(v) => Some(v.duplicate()),
        None => parent.duplicate(),
    }
}

fn merge_optional_vecs(parent: &Option<Vec<String>>, child: &Option<Vec<String>>) -> (r: Option<
    Vec<String>,
>)
    ensures
        r.deep_view() == united(parent.deep_view(), child.deep_view()),
{
    match (parent, child) {
        (Some(p), Some(c)) => {
            let mut merged = p.duplicate();
            add_names(&mut merged, c);
            Some(merged)
        },
        (Some(p), None) => Some(p.duplicate()),
        (None, c) => c.duplicate(),
    }
}

impl Default for SpecDefaults {
    fn default() -> (r: Self)
        ensures
            r.deep_view() == no_defaults(),
    {
        SpecDefaults {
            language: None,
            layer: None,
            context: None,
            stability: None,
            forbidden_deps: None,
            external_deps: None,
            forbidden_external: None,
        }
    }
}

impl SpecDefaults {
    /// Puts the defaults of a child directory on top of these.
    pub fn merge(&self, child: &SpecDefaults) -> (r: SpecDefaults)
        ensures
            r.deep_view() == merged(self.deep_view(), child.deep_view()),
    {
        SpecDefaults {
            language: merge_optional(&self.language, &child.language),
            layer: merge_optional(&self.layer, &child.layer),
            context: merge_optional(&self.context, &child.context),
            stability: merge_optional(&self.stability, &child.stability),
            forbidden_deps: merge_optional_vecs(&self.forbidden_deps, &child.forbidden_deps),
            external_deps: merge_optional_vecs(&self.external_deps, &child.external_deps),
            forbidden_external: merge_optional_vecs(
                &self.forbidden_external,
                &child.forbidden_external,
            ),
        }
    }
}

/// The effective defaults of a spec file, from the defaults that were found in the
/// directories from the root down to its own.
pub fn resolve_defaults(chain: &Vec<SpecDefaults>) -> (r: SpecDefaults)
    ensures
        r.deep_view() == merged_chain(chain.deep_view()),
{
    let mut effective: SpecDefaults = Default::default();
    let ghost all = chain.deep_view();
    assert(all.take(0).len() == 0);
    let mut i: usize = 0;
    while i < chain.len()
        invariant
            i <= chain@.len(),
            all == chain.deep_view(),
            effective.deep_view() == merged_chain(all.take(i as int)),
        decreases chain@.len() - i,
    {
        assert(all[i as int] == chain@[i as int].deep_view());
        assert(all.take(i + 1).drop_last() =~= all.take(i as int));
        assert(all.take(i + 1).last() == all[i as int]);
        effective = effective.merge(&chain[i]);
        i += 1;
    }
    assert(all.take(all.len() as int) =~= all);
    effective
}

// ─── Specs ────────────────────────────────────────────────────────────────────

/// What is specified of an exposed entity.
#[derive(Debug)]
pub struct ExposeSpec {
    /// `function`, `type` or `variable`; a function if it is not given
    pub kind: Option<String>,
    /// What the entity is for
    pub description: Option<String>,
    /// Function signature
    pub signature: Option<String>,
    /// Preconditions of a function
    pub requires: Vec<String>,
    /// Postconditions of a function or type
    pub ensures: Vec<String>,
    /// State that a function changes
    pub modifies: Vec<String>,
    /// Events that a function emits
    pub emits: Vec<String>,
    /// Who may call a function
    pub callable_by: Vec<String>,
    /// Visibility of a function
    pub visibility: Option<String>,
    /// Type formulas
    pub type_constraints: Vec<String>,
}

/// What a [`ExposeSpec`] holds.
#[verifier::ext_equal]
pub struct ExposeSpecModel {
    pub kind: Option<Seq<char>>,
    pub description: Option<Seq<char>>,
    pub signature: Option<Seq<char>>,
    pub requires: Seq<Seq<char>>,
    pub ensures: Seq<Seq<char>>,
    pub modifies: Seq<Seq<char>>,
    pub emits: Seq<Seq<char>>,
    pub callable_by: Seq<Seq<char>>,
    pub visibility: Option<Seq<char>>,
    pub type_constraints: Seq<Seq<char>>,
}

impl DeepView for ExposeSpec {
    type V = ExposeSpecModel;

    open spec fn deep_view(&self) -> ExposeSpecModel {
        ExposeSpecModel {
            kind: self.kind.deep_view(),
            description: self.description.deep_view(),
            signature: self.signature.deep_view(),
            requires: self.requires.deep_view(),
            ensures: self.ensures.deep_view(),
            modifies: self.modifies.deep_view(),
            emits: self.emits.deep_view(),
            callable_by: self.callable_by.deep_view(),
            visibility: self.visibility.deep_view(),
            type_constraints: self.type_constraints.deep_view(),
        }
    }
}

impl Clone for ExposeSpec {
    fn clone(&self) -> (r: Self)
        ensures
            r.deep_view() == self.deep_view(),
    {
        self.duplicate()
    }
}

impl Duplicate for ExposeSpec {
    fn duplicate(&self) -> (r: Self) {
        ExposeSpec {
            kind: self.kind.duplicate(),
            description: self.description.duplicate(),
            signature: self.signature.duplicate(),
            requires: self.requires.duplicate(),
            ensures: self.ensures.duplicate(),
            modifies: self.modifies.duplicate(),
            emits: self.emits.duplicate(),
            callable_by: self.callable_by.duplicate(),
            visibility: self.visibility.duplicate(),
            type_constraints: self.type_constraints.duplicate(),
        }
    }
}

/// A step of a protocol: in the state `from` the function may be called, which leads to `to`.
#[derive(Debug)]
pub struct Transition {
    pub from: String,
    pub call: String,
    pub to: String,
}

/// What a [`Transition`] holds.
#[verifier::ext_equal]
pub struct TransitionModel {
    pub from: Seq<char>,
    pub call: Seq<char>,
    pub to: Seq<char>,
}

impl DeepView for Transition {
    type V = TransitionModel;

    open spec fn deep_view(&self) -> TransitionModel {
        TransitionModel {
            from: self.from.deep_view(),
            call: self.call.deep_view(),
            to: self.to.deep_view(),
        }
    }
}

impl Clone for Transition {
    fn clone(&self) -> (r: Self)
        ensures
            r.deep_view() == self.deep_view(),
    {
        self.duplicate()
    }
}

impl Duplicate for Transition {
    fn duplicate(&self) -> (r: Self) {
        Transition {
            from: self.from.duplicate(),
            call: self.call.duplicate(),
            to: self.to.duplicate(),
        }
    }
}

/// Valid call sequences of a module.
#[derive(Debug)]
pub struct ProtocolSpec {
    pub states: Vec<String>,
    pub initial: String,
    pub terminal: Vec<String>,
    pub transitions: Vec<Transition>,
    /// Functions that undo each other, such as `open` and `close`
    pub balanced_pairs: Vec<(String, String)>,
}

/// What a [`ProtocolSpec`] holds.
#[verifier::ext_equal]
pub struct ProtocolSpecModel {
    pub states: Seq<Seq<char>>,
    pub initial: Seq<char>,
    pub terminal: Seq<Seq<char>>,
    pub transitions: Seq<TransitionModel>,
    pub balanced_pairs: Seq<(Seq<char>, Seq<char>)>,
}

impl DeepView for ProtocolSpec {
    type V = ProtocolSpecModel;

    open spec fn deep_view(&self) -> ProtocolSpecModel {
        ProtocolSpecModel {
            states: self.states.deep_view(),
            initial: self.initial.deep_view(),
            terminal: self.terminal.deep_view(),
            transitions: self.transitions.deep_view(),
            balanced_pairs: self.balanced_pairs.deep_view(),
        }
    }
}

impl Clone for ProtocolSpec {
    fn clone(&self) -> (r: Self)
        ensures
            r.deep_view() == self.deep_view(),
    {
        self.duplicate()
    }
}

impl Duplicate for ProtocolSpec {
    fn duplicate(&self) -> (r: Self) {
        ProtocolSpec {
            states: self.states.duplicate(),
            initial: self.initial.duplicate(),
            terminal: self.terminal.duplicate(),
            transitions: self.transitions.duplicate(),
            balanced_pairs: self.balanced_pairs.duplicate(),
        }
    }
}

/// The specification of a module.
#[derive(Debug)]
pub struct ModuleSpec {
    /// Module name
    pub module: String,
    /// What the module is for
    pub description: Option<String>,
    /// Programming language
    pub language: Option<String>,
    /// Path to the source file, relative to the source root
    pub source_path: Option<String>,
    /// Hash of the source file that the spec was written for
    pub source_hash: Option<String>,
    /// Exposed entities by name
    pub exposes: StringMap<ExposeSpec>,
    /// Allowed module dependencies
    pub depends_on: Vec<String>,
    /// Forbidden dependencies
    pub forbidden_deps: Vec<String>,
    /// External package dependencies
    pub external_deps: Vec<String>,
    /// Forbidden external packages
    pub forbidden_external: Vec<String>,
    /// Architectural layer
    pub layer: Option<Layer>,
    /// Bounded context
    pub context: Option<String>,
    /// How often the module changes
    pub stability: Option<Stability>,
    /// Invariants of the module
    pub invariants: Vec<String>,
    /// Events that the module emits
    pub emits: Vec<String>,
    /// Events that the module subscribes to
    pub subscribes: Vec<String>,
    /// State variables that the module owns
    pub owns_state: Vec<String>,
    /// State of other modules that it reads
    pub reads_state: Vec<String>,
    /// State of other modules that it changes
    pub modifies: Vec<String>,
    /// Who may call the module
    pub callable_by: Vec<String>,
    /// Roles for access control
    pub roles: Vec<String>,
    /// Valid call sequences
    pub protocol: Option<ProtocolSpec>,
}

/// What a [`ModuleSpec`] holds.
#[verifier::ext_equal]
pub struct ModuleSpecModel {
    pub module: Seq<char>,
    pub description: Option<Seq<char>>,
    pub language: Option<Seq<char>>,
    pub source_path: Option<Seq<char>>,
    pub source_hash: Option<Seq<char>>,
    pub exposes: Seq<(Seq<char>, ExposeSpecModel)>,
    pub depends_on: Seq<Seq<char>>,
    pub forbidden_deps: Seq<Seq<char>>,
    pub external_deps: Seq<Seq<char>>,
    pub forbidden_external: Seq<Seq<char>>,
    pub layer: Option<Seq<char>>,
    pub context: Option<Seq<char>>,
    pub stability: Option<Stability>,
    pub invariants: Seq<Seq<char>>,
    pub emits: Seq<Seq<char>>,
    pub subscribes: Seq<Seq<char>>,
    pub owns_state: Seq<Seq<char>>,
    pub reads_state: Seq<Seq<char>>,
    pub modifies: Seq<Seq<char>>,
    pub callable_by: Seq<Seq<char>>,
    pub roles: Seq<Seq<char>>,
    pub protocol: Option<ProtocolSpecModel>,
}

impl DeepView for ModuleSpec {
    type V = ModuleSpecModel;

    open spec fn deep_view(&self) -> ModuleSpecModel {
        ModuleSpecModel {
            module: self.module.deep_view(),
            description: self.description.deep_view(),
            language: self.language.deep_view(),
            source_path: self.source_path.deep_view(),
            source_hash: self.source_hash.deep_view(),
            exposes: self.exposes.deep_view(),
            depends_on: self.depends_on.deep_view(),
            forbidden_deps: self.forbidden_deps.deep_view(),
            external_deps: self.external_deps.deep_view(),
            forbidden_external: self.forbidden_external.deep_view(),
            layer: self.layer.deep_view(),
            context: self.context.deep_view(),
            stability: self.stability.deep_view(),
            invariants: self.invariants.deep_view(),
            emits: self.emits.deep_view(),
            subscribes: self.subscribes.deep_view(),
            owns_state: self.owns_state.deep_view(),
            reads_state: self.reads_state.deep_view(),
            modifies: self.modifies.deep_view(),
            callable_by: self.callable_by.deep_view(),
            roles: self.roles.deep_view(),
            protocol: self.protocol.deep_view(),
        }
    }
}

impl Clone for ModuleSpec {
    fn clone(&self) -> (r: Self)
        ensures
            r.deep_view() == self.deep_view(),
    {
        self.duplicate()
    }
}

impl Duplicate for ModuleSpec {
    fn duplicate(&self) -> (r: Self) {
        ModuleSpec {
            module: self.module.duplicate(),
            description: self.description.duplicate(),
            language: self.language.duplicate(),
            source_path: self.source_path.duplicate(),
            source_hash: self.source_hash.duplicate(),
            exposes: self.exposes.duplicate(),
            depends_on: self.depends_on.duplicate(),
            forbidden_deps: self.forbidden_deps.duplicate(),
            external_deps: self.external_deps.duplicate(),
            forbidden_external: self.forbidden_external.duplicate(),
            layer: self.layer.duplicate(),
            context: self.context.duplicate(),
            stability: self.stability.duplicate(),
            invariants: self.invariants.duplicate(),
            emits: self.emits.duplicate(),
            subscribes: self.subscribes.duplicate(),
            owns_state: self.owns_state.duplicate(),
            reads_state: self.reads_state.duplicate(),
            modifies: self.modifies.duplicate(),
            callable_by: self.callable_by.duplicate(),
            roles: self.roles.duplicate(),
            protocol: self.protocol.duplicate(),
        }
    }
}

/// An entity of which nothing is specified.
pub open spec fn blank_expose() -> ExposeSpecModel {
    ExposeSpecModel {
        kind: None,
        description: None,
        signature: None,
        requires: Seq::empty(),
        ensures: Seq::empty(),
        modifies: Seq::empty(),
        emits: Seq::empty(),
        callable_by: Seq::empty(),
        visibility: None,
        type_constraints: Seq::empty(),
    }
}

impl Default for ExposeSpec {
    fn default() -> (r: Self)
        ensures
            r.deep_view() == blank_expose(),
    {
        let r = ExposeSpec {
            kind: None,
            description: None,
            signature: None,
            requires: Vec::new(),
            ensures: Vec::new(),
            modifies: Vec::new(),
            emits: Vec::new(),
            callable_by: Vec::new(),
            visibility: None,
            type_constraints: Vec::new(),
        };
        assert(r.deep_view() =~= blank_expose());
        r
    }
}

/// A module of which nothing is specified.
pub open spec fn blank_spec() -> ModuleSpecModel {
    ModuleSpecModel {
        module: Seq::empty(),
        description: None,
        language: None,
        source_path: None,
        source_hash: None,
        exposes: Seq::empty(),
        depends_on: Seq::empty(),
        forbidden_deps: Seq::empty(),
        external_deps: Seq::empty(),
        forbidden_external: Seq::empty(),
        layer: None,
        context: None,
        stability: None,
        invariants: Seq::empty(),
        emits: Seq::empty(),
        subscribes: Seq::empty(),
        owns_state: Seq::empty(),
        reads_state: Seq::empty(),
        modifies: Seq::empty(),
        callable_by: Seq::empty(),
        roles: Seq::empty(),
        protocol: None,
    }
}

impl Default for ModuleSpec {
    fn default() -> (r: Self)
        ensures
            r.deep_view() == blank_spec(),
    {
        let r = ModuleSpec {
            module: String::new(),
            description: None,
            language: None,
            source_path: None,
            source_hash: None,
            exposes: StringMap::new(),
            depends_on: Vec::new(),
            forbidden_deps: Vec::new(),
            external_deps: Vec::new(),
            forbidden_external: Vec::new(),
            layer: None,
            context: None,
            stability: None,
            invariants: Vec::new(),
            emits: Vec::new(),
            subscribes: Vec::new(),
            owns_state: Vec::new(),
            reads_state: Vec::new(),
            modifies: Vec::new(),
            callable_by: Vec::new(),
            roles: Vec::new(),
            protocol: None,
        };
        assert(r.deep_view() =~= blank_spec());
        r
    }
}

/// A spec with the defaults of its directory. What the spec sets itself stays; lists are
/// united.
pub open spec fn with_defaults(spec: ModuleSpecModel, defaults: SpecDefaultsModel) ->
    ModuleSpecModel {
    ModuleSpecModel {
        language: overriding(defaults.language, spec.language),
        layer: overriding(defaults.layer, spec.layer),
        context: overriding(defaults.context, spec.context),
        stability: overriding(defaults.stability, spec.stability),
        forbidden_deps: with_optional(spec.forbidden_deps, defaults.forbidden_deps),
        external_deps: with_optional(spec.external_deps, defaults.external_deps),
        forbidden_external: with_optional(spec.forbidden_external, defaults.forbidden_external),
        ..spec
    }
}

/// The list united with an optional one.
pub open spec fn with_optional(list: Seq<Seq<char>>, more: Option<Seq<Seq<char>>>) -> Seq<
    Seq<char>,
> {
    match more {
        Some(m) => with_names(list, m),
        None => list,
    }
}

/// A public function of the source code, as a spec exposes it.
pub open spec fn exposed_function(signature: Option<Seq<char>>) -> ExposeSpecModel {
    ExposeSpecModel { signature, visibility: Some("public"@), ..blank_expose() }
}

/// The first `n` public functions of a module, as a spec exposes them.
pub open spec fn exposed_functions(m: ExtractedModuleModel, n: int) -> Seq<
    (Seq<char>, ExposeSpecModel),
>
    decreases n,
{
    if n <= 0 || n > m.public_functions.len() {
        Seq::empty()
    } else {
        let name = m.public_functions[n - 1];
        with_entry(
            exposed_functions(m, n - 1),
            name,
            exposed_function(lookup(m.function_signatures, name)),
        )
    }
}

/// The spec that says of a module what was extracted from it.
pub open spec fn spec_of_module(m: ExtractedModuleModel) -> ModuleSpecModel {
    ModuleSpecModel {
        module: m.name,
        language: Some(m.language),
        source_path: m.source_path,
        exposes: exposed_functions(m, m.public_functions.len() as int),
        external_deps: m.imports,
        emits: m.events,
        owns_state: m.state_variables,
        ..blank_spec()
    }
}

fn add_optional_names(list: &mut Vec<String>, more: &Option<Vec<String>>)
    ensures
        final(list).deep_view() == with_optional(old(list).deep_view(), more.deep_view()),
{
    match more {
        Some(m) => {
            add_names(list, m);
        },
        None => {},
    }
}

impl ModuleSpec {
    /// Every map of the spec has unique keys.
    pub open spec fn wf(&self) -> bool {
        self.exposes.wf()
    }

    /// Applies the defaults of a directory to this spec.
    pub fn apply_defaults(&mut self, defaults: &SpecDefaults)
        ensures
            final(self).deep_view() == with_defaults(old(self).deep_view(), defaults.deep_view()),
            old(self).wf() ==> final(self).wf(),
    {
        if self.language.is_none() {
            self.language = defaults.language.duplicate();
        }
        if self.layer.is_none() {
            self.layer = defaults.layer.duplicate();
        }
        if self.context.is_none() {
            self.context = defaults.context.duplicate();
        }
        if self.stability.is_none() {
            self.stability = defaults.stability.duplicate();
        }
        add_optional_names(&mut self.forbidden_deps, &defaults.forbidden_deps);
        add_optional_names(&mut self.external_deps, &defaults.external_deps);
        add_optional_names(&mut self.forbidden_external, &defaults.forbidden_external);
    }

    /// Creates a spec from what was extracted from a module.
    pub fn from_extracted(extracted: &ExtractedModule) -> (r: Self)
        ensures
            r.deep_view() == spec_of_module(extracted.deep_view()),
            r.wf(),
    {
        let ghost m = extracted.deep_view();
        let mut exposes: StringMap<ExposeSpec> = StringMap::new();
        let mut i: usize = 0;
        while i < extracted.public_functions.len()
            invariant
                i <= extracted.public_functions@.len(),
                m == extracted.deep_view(),
                exposes.deep_view() == exposed_functions(m, i as int),
                exposes.wf(),
            decreases extracted.public_functions@.len() - i,
        {
            let name = &extracted.public_functions[i];
            assert(m.public_functions[i as int] == name@);
            let mut entity: ExposeSpec = Default::default();
            entity.signature = match extracted.function_signatures.get(name.as_str()) {
                Some(sig) => Some(sig.clone()),
                None => None,
            };
            entity.visibility = Some("public".to_owned());
            exposes.insert(name.clone(), entity);
            i += 1;
        }
        let mut spec: ModuleSpec = Default::default();
        spec.module = extracted.name.clone();
        spec.language = Some(extracted.language.clone());
        spec.source_path = extracted.source_path.duplicate();
        spec.exposes = exposes;
        spec.external_deps = extracted.imports.duplicate();
        spec.emits = extracted.events.duplicate();
        spec.owns_state = extracted.state_variables.duplicate();
        spec
    }
}

// ─── Subsystems ───────────────────────────────────────────────────────────────

/// What is specified of an entity that a subsystem exposes.
#[derive(Debug)]
pub struct SubsystemExpose {
    /// Member module and entity, such as `bridge.deposit`
    pub delegates_to: Option<String>,
    /// Preconditions
    pub requires: Vec<String>,
    /// Postconditions
    pub ensures: Vec<String>,
}

/// What a [`SubsystemExpose`] holds.
#[verifier::ext_equal]
pub struct SubsystemExposeModel {
    pub delegates_to: Option<Seq<char>>,
    pub requires: Seq<Seq<char>>,
    pub ensures: Seq<Seq<char>>,
}

impl DeepView for SubsystemExpose {
    type V = SubsystemExposeModel;

    open spec fn deep_view(&self) -> SubsystemExposeModel {
        SubsystemExposeModel {
            delegates_to: self.delegates_to.deep_view(),
            requires: self.requires.deep_view(),
            ensures: self.ensures.deep_view(),
        }
    }
}

impl Clone for SubsystemExpose {
    fn clone(&self) -> (r: Self)
        ensures
            r.deep_view() == self.deep_view(),
    {
        self.duplicate()
    }
}

impl Duplicate for SubsystemExpose {
    fn duplicate(&self) -> (r: Self) {
        SubsystemExpose {
            delegates_to: self.delegates_to.duplicate(),
            requires: self.requires.duplicate(),
            ensures: self.ensures.duplicate(),
        }
    }
}

/// The specification of a group of modules.
#[derive(Debug)]
pub struct SubsystemSpec {
    /// Subsystem name
    pub subsystem: String,
    /// What the subsystem is for
    pub description: Option<String>,
    /// Source files of the member modules
    pub modules: Vec<String>,
    /// Exposed entities by name
    pub exposes: StringMap<SubsystemExpose>,
    /// Invariants of the subsystem
    pub invariants: Vec<String>,
    /// Allowed subsystem dependencies
    pub depends_on: Vec<String>,
    /// Forbidden subsystem dependencies
    pub forbidden_deps: Vec<String>,
    /// Architectural layer
    pub layer: Option<Layer>,
    /// Bounded context
    pub context: Option<String>,
    /// How often the subsystem changes
    pub stability: Option<Stability>,
}

/// What a [`SubsystemSpec`] holds.
#[verifier::ext_equal]
pub struct SubsystemSpecModel {
    pub subsystem: Seq<char>,
    pub description: Option<Seq<char>>,
    pub modules: Seq<Seq<char>>,
    pub exposes: Seq<(Seq<char>, SubsystemExposeModel)>,
    pub invariants: Seq<Seq<char>>,
    pub depends_on: Seq<Seq<char>>,
    pub forbidden_deps: Seq<Seq<char>>,
    pub layer: Option<Seq<char>>,
    pub context: Option<Seq<char>>,
    pub stability: Option<Stability>,
}

impl DeepView for SubsystemSpec {
    type V = SubsystemSpecModel;

    open spec fn deep_view(&self) -> SubsystemSpecModel {
        SubsystemSpecModel {
            subsystem: self.subsystem.deep_view(),
            description: self.description.deep_view(),
            modules: self.modules.deep_view(),
            exposes: self.exposes.deep_view(),
            invariants: self.invariants.deep_view(),
            depends_on: self.depends_on.deep_view(),
            forbidden_deps: self.forbidden_deps.deep_view(),
            layer: self.layer.deep_view(),
            context: self.context.deep_view(),
            stability: self.stability.deep_view(),
        }
    }
}

impl Clone for SubsystemSpec {
    fn clone(&self) -> (r: Self)
        ensures
            r.deep_view() == self.deep_view(),
    {
        self.duplicate()
    }
}

impl Duplicate for SubsystemSpec {
    fn duplicate(&self) -> (r: Self) {
        SubsystemSpec {
            subsystem: self.subsystem.duplicate(),
            description: self.description.duplicate(),
            modules: self.modules.duplicate(),
            exposes: self.exposes.duplicate(),
            invariants: self.invariants.duplicate(),
            depends_on: self.depends_on.duplicate(),
            forbidden_deps: self.forbidden_deps.duplicate(),
            layer: self.layer.duplicate(),
            context: self.context.duplicate(),
            stability: self.stability.duplicate(),
        }
    }
}

// ─── Laws ─────────────────────────────────────────────────────────────────────

/// A layer may always depend on itself, however its name is cased.
pub proof fn same_layer_is_allowed(
    allowed: Seq<(Seq<char>, Seq<Seq<char>>)>,
    source: Seq<char>,
    target: Seq<char>,
)
    requires
        text::lowercase(source) == text::lowercase(target),
    ensures
        layer_allows(allowed, source, target),
{
}

/// A layer that is not listed may depend on any other.
pub proof fn unknown_layer_is_allowed(
    allowed: Seq<(Seq<char>, Seq<Seq<char>>)>,
    source: Seq<char>,
    target: Seq<char>,
)
    requires
        !has_key(allowed, text::lowercase(source)),
    ensures
        layer_allows(allowed, source, target),
{
    lemma_key_index(allowed, text::lowercase(source));
}

/// A listed layer may depend on no other layer than those listed for it.
pub proof fn unlisted_layers_are_refused(
    allowed: Seq<(Seq<char>, Seq<Seq<char>>)>,
    source: Seq<char>,
    target: Seq<char>,
)
    requires
        has_key(allowed, text::lowercase(source)),
        text::lowercase(source) != text::lowercase(target),
        !lookup(allowed, text::lowercase(source))->Some_0.contains(text::lowercase(target)),
    ensures
        !layer_allows(allowed, source, target),
{
    lemma_key_index(allowed, text::lowercase(source));
}

/// Layers that are named alike but for the case of letters may depend on the same.
pub proof fn letter_case_is_ignored(
    allowed: Seq<(Seq<char>, Seq<Seq<char>>)>,
    source: Seq<char>,
    target: Seq<char>,
    other_source: Seq<char>,
    other_target: Seq<char>,
)
    requires
        text::lowercase(source) == text::lowercase(other_source),
        text::lowercase(target) == text::lowercase(other_target),
    ensures
        layer_allows(allowed, source, target) == layer_allows(allowed, other_source, other_target),
{
}

/// Layers with names of ASCII characters may depend on the same as those with the names in
/// lowercase.
pub proof fn lowercase_names_mean_the_same(
    allowed: Seq<(Seq<char>, Seq<Seq<char>>)>,
    source: Seq<char>,
    target: Seq<char>,
)
    requires
        text::is_ascii(source),
        text::is_ascii(target),
    ensures
        layer_allows(allowed, source, target) == layer_allows(
            allowed,
            text::lowercase(source),
            text::lowercase(target),
        ),
{
    text::lemma_lowercase_twice(source);
    text::lemma_lowercase_twice(target);
}

/// No two names are the same in lowercase.
pub open spec fn distinct_in_lowercase(names: Seq<Seq<char>>) -> bool {
    forall|i: int, j: int|
        0 <= i < names.len() && 0 <= j < names.len() && i != j ==> text::lowercase(
            #[trigger] names[i],
        ) != text::lowercase(#[trigger] names[j])
}

proof fn lemma_linear_lookup(layers: Seq<Seq<char>>, n: int, i: int)
    requires
        distinct_in_lowercase(layers),
        0 <= i < n <= layers.len(),
    ensures
        lookup(linear_layers(layers, n), text::lowercase(layers[i])) == Some(
            lowercased(layers.skip(i + 1)),
        ),
    decreases n,
{
    let before = linear_layers(layers, n - 1);
    if i == n - 1 {
        lookup_after_insert(before, text::lowercase(layers[n - 1]), lowercased(layers.skip(n)));
    } else {
        lemma_linear_lookup(layers, n - 1, i);
        lookup_of_other_key(
            before,
            text::lowercase(layers[n - 1]),
            lowercased(layers.skip(n)),
            text::lowercase(layers[i]),
        );
    }
}

/// Of layers in a line, each may depend on those behind it and on none before it.
pub proof fn linear_layers_depend_downwards(layers: Seq<Seq<char>>, i: int, j: int)
    requires
        distinct_in_lowercase(layers),
        0 <= i < layers.len(),
        0 <= j < layers.len(),
    ensures
        layer_allows(linear_layers(layers, layers.len() as int), layers[i], layers[j]) <==> i <= j,
{
    lemma_linear_lookup(layers, layers.len() as int, i);
    let deps = lowercased(layers.skip(i + 1));
    let t = text::lowercase(layers[j]);
    if i < j {
        assert(layers.skip(i + 1)[j - i - 1] == layers[j]);
        assert(deps[j - i - 1] == t);
        assert(deps.contains(t));
    } else if j < i {
        assert forall|k: int| 0 <= k < deps.len() implies deps[k] != t by {
            assert(layers.skip(i + 1)[k] == layers[i + 1 + k]);
        }
        assert(!deps.contains(t));
    }
}

/// Depending only on what is at least as stable is transitive, and every level may depend on
/// itself.
pub proof fn stability_is_an_order(a: Stability, b: Stability, c: Stability)
    ensures
        steadiness(a) <= steadiness(a),
        steadiness(a) <= steadiness(b) && steadiness(b) <= steadiness(c) ==> steadiness(a)
            <= steadiness(c),
        steadiness(a) <= steadiness(b) && steadiness(b) <= steadiness(a) ==> a == b,
{
}

/// Merging the defaults of a chain of directories does not depend on where one begins.
pub proof fn merging_associates(a: SpecDefaultsModel, b: SpecDefaultsModel, c: SpecDefaultsModel)
    ensures
        merged(merged(a, b), c) == merged(a, merged(b, c)),
{
    lemma_united_associates(a.forbidden_deps, b.forbidden_deps, c.forbidden_deps);
    lemma_united_associates(a.external_deps, b.external_deps, c.external_deps);
    lemma_united_associates(a.forbidden_external, b.forbidden_external, c.forbidden_external);
}

proof fn lemma_united_associates(
    a: Option<Seq<Seq<char>>>,
    b: Option<Seq<Seq<char>>>,
    c: Option<Seq<Seq<char>>>,
)
    ensures
        united(united(a, b), c) == united(a, united(b, c)),
{
    match (a, b, c) {
        (Some(x), Some(y), Some(z)) => {
            with_names_associates(x, y, z);
        },
        _ => {},
    }
}

/// What a child directory sets is what holds, and its lists hold what both set.
pub proof fn child_overrides_parent(
    parent: SpecDefaultsModel,
    child: SpecDefaultsModel,
    dep: Seq<char>,
)
    ensures
        child.language is Some ==> merged(parent, child).language == child.language,
        child.layer is Some ==> merged(parent, child).layer == child.layer,
        child.context is Some ==> merged(parent, child).context == child.context,
        child.stability is Some ==> merged(parent, child).stability == child.stability,
        parent.forbidden_deps is Some && child.forbidden_deps is Some ==> (merged(
            parent,
            child,
        ).forbidden_deps->0.contains(dep) <==> parent.forbidden_deps->0.contains(dep)
            || child.forbidden_deps->0.contains(dep)),
{
    if parent.forbidden_deps is Some && child.forbidden_deps is Some {
        crate::data::with_names_is_union(parent.forbidden_deps->0, child.forbidden_deps->0, dep);
    }
}

/// Defaults never overwrite what a spec sets itself, and take nothing from its lists.
pub proof fn explicit_fields_stay(spec: ModuleSpecModel, defaults: SpecDefaultsModel, dep: Seq<char>)
    ensures
        spec.language is Some ==> with_defaults(spec, defaults).language == spec.language,
        spec.layer is Some ==> with_defaults(spec, defaults).layer == spec.layer,
        spec.context is Some ==> with_defaults(spec, defaults).context == spec.context,
        spec.stability is Some ==> with_defaults(spec, defaults).stability == spec.stability,
        spec.forbidden_deps.contains(dep) ==> with_defaults(
            spec,
            defaults,
        ).forbidden_deps.contains(dep),
        spec.external_deps.contains(dep) ==> with_defaults(
            spec,
            defaults,
        ).external_deps.contains(dep),
        spec.forbidden_external.contains(dep) ==> with_defaults(
            spec,
            defaults,
        ).forbidden_external.contains(dep),
{
    if defaults.forbidden_deps is Some {
        crate::data::with_names_is_union(spec.forbidden_deps, defaults.forbidden_deps->0, dep);
    }
    if defaults.external_deps is Some {
        crate::data::with_names_is_union(spec.external_deps, defaults.external_deps->0, dep);
    }
    if defaults.forbidden_external is Some {
        crate::data::with_names_is_union(
            spec.forbidden_external,
            defaults.forbidden_external->0,
            dep,
        );
    }
}

/// Applying the same defaults again changes nothing.
pub proof fn applying_defaults_twice(spec: ModuleSpecModel, defaults: SpecDefaultsModel)
    ensures
        with_defaults(with_defaults(spec, defaults), defaults) == with_defaults(spec, defaults),
{
    lemma_with_optional_twice(spec.forbidden_deps, defaults.forbidden_deps);
    lemma_with_optional_twice(spec.external_deps, defaults.external_deps);
    lemma_with_optional_twice(spec.forbidden_external, defaults.forbidden_external);
}

proof fn lemma_with_optional_twice(list: Seq<Seq<char>>, more: Option<Seq<Seq<char>>>)
    ensures
        with_optional(with_optional(list, more), more) == with_optional(list, more),
{
    if more is Some {
        let m = more->0;
        let once = with_names(list, m);
        assert forall|x: Seq<char>| m.contains(x) implies #[trigger] once.contains(x) by {
            crate::data::with_names_is_union(list, m, x);
        }
        with_known_names(once, m);
    }
}

} // verus!

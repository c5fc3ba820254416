//! Architectural rules: expressions over the modules at the two ends of a dependency.
use vstd::prelude::*;
use vstd::slice::slice_subrange;

use crate::data::{append_item, Duplicate, StringMap};
use crate::spec::{
    dag_layers, layer_allows, linear_layers, steadiness, LayerConfig, ModuleSpec, ModuleSpecModel,
    Stability,
};
use crate::text;

verus! {

// ─── Rules ────────────────────────────────────────────────────────────────────

/// How much a violation weighs.
#[derive(Debug, Clone, Copy, PartialEq, Eq, Structural)]
pub enum Severity {
    Error,
    Warning,
}

impl DeepView for Severity {
    type V = Severity;

    open spec fn deep_view(&self) -> Severity {
        *self
    }
}

impl Default for Severity {
    fn default() -> (r: Self)
        ensures
            r == Severity::Error,
    {
        Severity::Error
    }
}

/// A custom architectural rule.
#[derive(Debug)]
pub struct Rule {
    /// Name for error messages
    pub name: String,
    /// What the rule enforces
    pub description: Option<String>,
    /// When the rule applies
    pub when: String,
    /// What must hold when it applies
    pub require: String,
    /// How much a violation weighs
    pub severity: Severity,
}

/// What a [`Rule`] holds.
#[verifier::ext_equal]
pub struct RuleModel {
    pub name: Seq<char>,
    pub description: Option<Seq<char>>,
    pub when: Seq<char>,
    pub require: Seq<char>,
    pub severity: Severity,
}

impl DeepView for Rule {
    type V = RuleModel;

    open spec fn deep_view(&self) -> RuleModel {
        RuleModel {
            name: self.name.deep_view(),
            description: self.description.deep_view(),
            when: self.when.deep_view(),
            require: self.require.deep_view(),
            severity: self.severity,
        }
    }
}

impl Clone for Rule {
    fn clone(&self) -> (r: Self)
        ensures
            r.deep_view() == self.deep_view(),
    {
        self.duplicate()
    }
}

impl Duplicate for Rule {
    fn duplicate(&self) -> (r: Self) {
        Rule {
            name: self.name.duplicate(),
            description: self.description.duplicate(),
            when: self.when.duplicate(),
            require: self.require.duplicate(),
            severity: self.severity,
        }
    }
}

/// When a rule applies that does not say so: always.
pub fn default_when() -> (r: String)
    ensures
        r@ == "true"@,
{
    "true".to_owned()
}

/// The layers that a layer may depend on.
#[derive(Debug)]
pub struct LayerDepsInput {
    pub can_depend_on: Vec<String>,
}

/// What a [`LayerDepsInput`] holds.
#[verifier::ext_equal]
pub struct LayerDepsInputModel {
    pub can_depend_on: Seq<Seq<char>>,
}

impl DeepView for LayerDepsInput {
    type V = LayerDepsInputModel;

    open spec fn deep_view(&self) -> LayerDepsInputModel {
        LayerDepsInputModel {
            can_depend_on: self.can_depend_on.deep_view(),
        }
    }
}

impl Clone for LayerDepsInput {
    fn clone(&self) -> (r: Self)
        ensures
            r.deep_view() == self.deep_view(),
    {
        self.duplicate()
    }
}

impl Duplicate for LayerDepsInput {
    fn duplicate(&self) -> (r: Self) {
        LayerDepsInput {
            can_depend_on: self.can_depend_on.duplicate(),
        }
    }
}

/// Custom layers: a line, in which each layer may depend on all behind it, or a graph, in
/// which each lists those that it may depend on.
#[derive(Debug)]
pub enum LayersInput {
    Linear(Vec<String>),
    Dag(StringMap<LayerDepsInput>),
}

/// What a [`LayersInput`] holds.
#[verifier::ext_equal]
pub enum LayersInputModel {
    Linear(Seq<Seq<char>>),
    Dag(Seq<(Seq<char>, LayerDepsInputModel)>),
}

impl DeepView for LayersInput {
    type V = LayersInputModel;

    open spec fn deep_view(&self) -> LayersInputModel {
        match self {
            LayersInput::Linear(layers) => LayersInputModel::Linear(layers.deep_view()),
            LayersInput::Dag(dag) => LayersInputModel::Dag(dag.deep_view()),
        }
    }
}

impl Clone for LayersInput {
    fn clone(&self) -> (r: Self)
        ensures
            r.deep_view() == self.deep_view(),
    {
        self.duplicate()
    }
}

impl Duplicate for LayersInput {
    fn duplicate(&self) -> (r: Self) {
        match self {
            LayersInput::Linear(layers) => LayersInput::Linear(layers.duplicate()),
            LayersInput::Dag(dag) => LayersInput::Dag(dag.duplicate()),
        }
    }
}

/// What the first `n` layers of a graph may depend on.
pub open spec fn input_layers(dag: Seq<(Seq<char>, LayerDepsInputModel)>, n: int) -> Seq<
    (Seq<char>, Seq<Seq<char>>),
>
    decreases n,
{
    if n <= 0 || n > dag.len() {
        Seq::empty()
    } else {
        crate::data::with_entry(
            input_layers(dag, n - 1),
            dag[n - 1].0,
            dag[n - 1].1.can_depend_on,
        )
    }
}

/// Which layer may depend on which, by custom layers.
pub open spec fn configured_layers(input: LayersInputModel) -> Seq<(Seq<char>, Seq<Seq<char>>)> {
    match input {
        LayersInputModel::Linear(layers) => linear_layers(layers, layers.len() as int),
        LayersInputModel::Dag(dag) => {
            let listed = input_layers(dag, dag.len() as int);
            dag_layers(listed, listed.len() as int)
        },
    }
}

impl LayersInput {
    pub fn to_layer_config(&self) -> (r: LayerConfig)
        ensures
            r.deep_view() == configured_layers(self.deep_view()),
    {
        match self {
            LayersInput::Linear(layers) => LayerConfig::from_linear(layers.as_slice()),
            LayersInput::Dag(dag) => {
                let mut listed: StringMap<Vec<String>> = StringMap::new();
                let mut i: usize = 0;
                while i < dag.len()
                    invariant
                        i <= dag.deep_view().len(),
                        listed.deep_view() == input_layers(dag.deep_view(), i as int),
                    decreases dag.deep_view().len() - i,
                {
                    listed.insert(dag.key(i).to_owned(), dag.value(i).can_depend_on.duplicate());
                    i += 1;
                }
                LayerConfig::from_dag(&listed)
            },
        }
    }
}

/// Rules of a project.
#[derive(Debug)]
pub struct RulesConfig {
    /// Custom rules
    pub rules: Vec<Rule>,
    /// Built-in rules that are switched off
    pub disable_builtin: Vec<String>,
    /// Custom layers, in place of the built-in ones
    pub layers: Option<LayersInput>,
}

/// What a [`RulesConfig`] holds.
#[verifier::ext_equal]
pub struct RulesConfigModel {
    pub rules: Seq<RuleModel>,
    pub disable_builtin: Seq<Seq<char>>,
    pub layers: Option<LayersInputModel>,
}

impl DeepView for RulesConfig {
    type V = RulesConfigModel;

    open spec fn deep_view(&self) -> RulesConfigModel {
        RulesConfigModel {
            rules: self.rules.deep_view(),
            disable_builtin: self.disable_builtin.deep_view(),
            layers: self.layers.deep_view(),
        }
    }
}

impl Clone for RulesConfig {
    fn clone(&self) -> (r: Self)
        ensures
            r.deep_view() == self.deep_view(),
    {
        self.duplicate()
    }
}

impl Duplicate for RulesConfig {
    fn duplicate(&self) -> (r: Self) {
        RulesConfig {
            rules: self.rules.duplicate(),
            disable_builtin: self.disable_builtin.duplicate(),
            layers: self.layers.duplicate(),
        }
    }
}

/// A project without rules of its own.
pub open spec fn no_rules() -> RulesConfigModel {
    RulesConfigModel { rules: Seq::empty(), disable_builtin: Seq::empty(), layers: None }
}

impl Default for RulesConfig {
    fn default() -> (r: Self)
        ensures
            r.deep_view() == no_rules(),
    {
        let r = RulesConfig { rules: Vec::new(), disable_builtin: Vec::new(), layers: None };
        assert(r.deep_view() =~= no_rules());
        r
    }
}

/// The modules at the two ends of a dependency, and the layers.
pub struct EvalContext<'a> {
    pub source: &'a ModuleSpec,
    pub target: &'a ModuleSpec,
    pub layer_config: &'a LayerConfig,
}

/// What an [`EvalContext`] holds.
#[verifier::ext_equal]
pub struct EvalContextModel {
    pub source: ModuleSpecModel,
    pub target: ModuleSpecModel,
    pub layers: Seq<(Seq<char>, Seq<Seq<char>>)>,
}

impl<'a> DeepView for EvalContext<'a> {
    type V = EvalContextModel;

    open spec fn deep_view(&self) -> EvalContextModel {
        EvalContextModel {
            source: self.source.deep_view(),
            target: self.target.deep_view(),
            layers: self.layer_config.deep_view(),
        }
    }
}

/// Why an expression has no value.
#[derive(Debug)]
pub enum Obstacle {
    /// What is wrong with it
    Error(String),
    /// It is a single quote mark, or holds a character outside ASCII and outside parentheses
    /// where an operator is looked for: such an expression cannot be evaluated at all
    Stuck,
}

/// What an [`Obstacle`] holds.
#[verifier::ext_equal]
pub enum ObstacleModel {
    Error(Seq<char>),
    Stuck,
}

impl DeepView for Obstacle {
    type V = ObstacleModel;

    open spec fn deep_view(&self) -> ObstacleModel {
        match self {
            Obstacle::Error(message) => ObstacleModel::Error(message@),
            Obstacle::Stuck => ObstacleModel::Stuck,
        }
    }
}

// ─── Values ───────────────────────────────────────────────────────────────────

/// An optional text, which is empty where there is none.
pub open spec fn or_empty(t: Option<Seq<char>>) -> Seq<char> {
    match t {
        Some(s) => s,
        None => Seq::empty(),
    }
}

/// The name of a stability level in rules.
pub open spec fn stability_text(s: Stability) -> Seq<char> {
    match s {
        Stability::Stable => "stable"@,
        Stability::Normal => "normal"@,
        Stability::Volatile => "volatile"@,
    }
}

/// The property of a module.
pub open spec fn module_property(m: ModuleSpecModel, prop: Seq<char>) -> Result<
    Seq<char>,
    ObstacleModel,
> {
    if prop == "module"@ || prop == "name"@ {
        Ok(m.module)
    } else if prop == "language"@ {
        Ok(or_empty(m.language))
    } else if prop == "source_path"@ || prop == "path"@ {
        Ok(or_empty(m.source_path))
    } else if prop == "layer"@ {
        Ok(or_empty(m.layer))
    } else if prop == "context"@ {
        Ok(or_empty(m.context))
    } else if prop == "stability"@ {
        Ok(
            match m.stability {
                Some(s) => stability_text(s),
                None => Seq::empty(),
            },
        )
    } else {
        Err(ObstacleModel::Error("Unknown property: "@ + prop))
    }
}

/// The stability level that a literal names.
pub open spec fn stability_literal(s: Seq<char>) -> Option<Stability> {
    let name = text::lowercase(s);
    if name == "stable"@ || name == "stability::stable"@ {
        Some(Stability::Stable)
    } else if name == "normal"@ || name == "stability::normal"@ {
        Some(Stability::Normal)
    } else if name == "volatile"@ || name == "stability::volatile"@ {
        Some(Stability::Volatile)
    } else {
        None
    }
}

/// Whether a text starts and ends with a quote mark of the same kind.
pub open spec fn is_quoted(s: Seq<char>) -> bool {
    s.len() > 0 && ((s[0] == '"' && s.last() == '"') || (s[0] == '\'' && s.last() == '\''))
}

/// The value of an expression without operators: a quoted text, a stability level, a
/// property of one of the modules, or the expression itself.
pub open spec fn value_of(expr: Seq<char>, ctx: EvalContextModel) -> Result<
    Seq<char>,
    ObstacleModel,
> {
    let s = text::trim(expr);
    if is_quoted(s) {
        if s.len() == 1 {
            Err(ObstacleModel::Stuck)
        } else {
            Ok(s.subrange(1, s.len() - 1))
        }
    } else {
        match stability_literal(s) {
            Some(level) => Ok(stability_text(level)),
            None => if text::starts_with(s, "source."@) {
                module_property(ctx.source, s.skip(7))
            } else if text::starts_with(s, "target."@) {
                module_property(ctx.target, s.skip(7))
            } else {
                Ok(s)
            },
        }
    }
}

// ─── Expressions ──────────────────────────────────────────────────────────────

/// The first position at or behind `i` where the operator stands outside parentheses, of
/// which `depth` are open.
pub open spec fn operator_from(s: Seq<char>, op: Seq<char>, i: int, depth: int) -> Result<
    Option<int>,
    ObstacleModel,
>
    decreases s.len() - i,
{
    if i < 0 || i >= s.len() {
        Ok(None)
    } else if s[i] == '(' {
        operator_from(s, op, i + 1, depth + 1)
    } else if s[i] == ')' {
        operator_from(s, op, i + 1, depth - 1)
    } else if depth == 0 && text::occurs_at(s, op, i) {
        Ok(Some(i))
    } else if depth == 0 && s[i] as u32 >= 128 {
        Err(ObstacleModel::Stuck)
    } else {
        operator_from(s, op, i + 1, depth)
    }
}

/// The two sides of the first of the operators that splits the expression.
pub open spec fn sides(s: Seq<char>, ops: Seq<Seq<char>>, k: int) -> Result<
    Option<(Seq<char>, Seq<char>)>,
    ObstacleModel,
>
    decreases ops.len() - k,
{
    if k < 0 || k >= ops.len() {
        Ok(None)
    } else {
        match operator_from(s, ops[k], 0, 0) {
            Ok(Some(i)) => Ok(Some((s.take(i), s.skip(i + ops[k].len())))),
            Ok(None) => sides(s, ops, k + 1),
            Err(e) => Err(e),
        }
    }
}

pub open spec fn or_operators() -> Seq<Seq<char>> {
    seq![" OR "@, " or "@, "||"@]
}

pub open spec fn and_operators() -> Seq<Seq<char>> {
    seq![" AND "@, " and "@, "&&"@]
}

/// The expression behind a negation.
pub open spec fn negated(s: Seq<char>) -> Option<Seq<char>> {
    if text::starts_with(s, "NOT "@) || text::starts_with(s, "not "@) {
        Some(text::trim(s.skip(4)))
    } else if text::starts_with(s, "!"@) {
        Some(text::trim(s.skip(1)))
    } else {
        None
    }
}

/// Whether the two values are the same.
pub open spec fn compared(sides: (Seq<char>, Seq<char>), ctx: EvalContextModel) -> Result<
    bool,
    ObstacleModel,
> {
    match value_of(text::trim(sides.0), ctx) {
        Ok(a) => match value_of(text::trim(sides.1), ctx) {
            Ok(b) => Ok(a == b),
            Err(e) => Err(e),
        },
        Err(e) => Err(e),
    }
}

/// Whether the source may depend on the target by their layers or their stability. Where one
/// of them has none, it may.
pub open spec fn dependency_allowed(s: Seq<char>, ctx: EvalContextModel) -> Result<
    bool,
    ObstacleModel,
> {
    if text::contains(s, "layer.can_depend_on"@) {
        match (ctx.source.layer, ctx.target.layer) {
            (Some(a), Some(b)) => Ok(layer_allows(ctx.layers, a, b)),
            _ => Ok(true),
        }
    } else if text::contains(s, "stability.can_depend_on"@) {
        match (ctx.source.stability, ctx.target.stability) {
            (Some(a), Some(b)) => Ok(steadiness(a) <= steadiness(b)),
            _ => Ok(true),
        }
    } else {
        Err(ObstacleModel::Error("Unknown can_depend_on expression: "@ + s))
    }
}

/// The name of the property whose existence an expression asks for, behind the module.
pub open spec fn asked_property(s: Seq<char>) -> Seq<char> {
    let rest = s.skip(7);
    if text::ends_with(rest, ".exists"@) {
        rest.take(rest.len() - 7)
    } else {
        s
    }
}

/// Whether a property is set.
pub open spec fn property_exists(s: Seq<char>, ctx: EvalContextModel) -> Result<
    bool,
    ObstacleModel,
> {
    let found = if text::starts_with(s, "source."@) {
        module_property(ctx.source, asked_property(s))
    } else if text::starts_with(s, "target."@) {
        module_property(ctx.target, asked_property(s))
    } else {
        Err(ObstacleModel::Error("Unknown exists expression: "@ + s))
    };
    match found {
        Ok(v) => Ok(v.len() > 0),
        Err(e) => Err(e),
    }
}

/// The value of an expression without logical operators.
pub open spec fn comparison_value(s: Seq<char>, ctx: EvalContextModel) -> Result<
    bool,
    ObstacleModel,
> {
    match sides(s, seq!["=="@], 0) {
        Ok(Some(ends)) => compared(ends, ctx),
        Err(e) => Err(e),
        Ok(None) => match sides(s, seq!["!="@], 0) {
            Ok(Some(ends)) => match compared(ends, ctx) {
                Ok(b) => Ok(!b),
                Err(e) => Err(e),
            },
            Err(e) => Err(e),
            Ok(None) => if text::contains(s, ".can_depend_on("@) {
                dependency_allowed(s, ctx)
            } else if text::contains(s, ".exists"@) {
                property_exists(s, ctx)
            } else {
                match value_of(s, ctx) {
                    Ok(v) => Ok(v.len() > 0 && v != "none"@ && v != "null"@),
                    Err(e) => Err(e),
                }
            },
        },
    }
}

/// The value of an expression. `or` binds weaker than `and`, which binds weaker than `not`.
pub open spec fn expression_value(expr: Seq<char>, ctx: EvalContextModel) -> Result<
    bool,
    ObstacleModel,
>
    decreases expr.len(),
{
    let s = text::trim(expr);
    if s == "true"@ {
        Ok(true)
    } else if s == "false"@ {
        Ok(false)
    } else {
        match sides(s, or_operators(), 0) {
            Err(e) => Err(e),
            Ok(Some((left, right))) => if left.len() < expr.len() && right.len() < expr.len() {
                match expression_value(left, ctx) {
                    Ok(false) => expression_value(right, ctx),
                    other => other,
                }
            } else {
                Err(ObstacleModel::Stuck)
            },
            Ok(None) => match sides(s, and_operators(), 0) {
                Err(e) => Err(e),
                Ok(Some((left, right))) => if left.len() < expr.len() && right.len() < expr.len() {
                    match expression_value(left, ctx) {
                        Ok(true) => expression_value(right, ctx),
                        other => other,
                    }
                } else {
                    Err(ObstacleModel::Stuck)
                },
                Ok(None) => match negated(s) {
                    Some(inner) => if inner.len() < expr.len() {
                        match expression_value(inner, ctx) {
                            Ok(b) => Ok(!b),
                            Err(e) => Err(e),
                        }
                    } else {
                        Err(ObstacleModel::Stuck)
                    },
                    None => comparison_value(s, ctx),
                },
            },
        }
    }
}

// ─── Evaluation ───────────────────────────────────────────────────────────────

/// What an evaluation ended in.
pub open spec fn truth_view(r: Result<bool, Obstacle>) -> Result<bool, ObstacleModel> {
    match r {
        Ok(b) => Ok(b),
        Err(e) => Err(e.deep_view()),
    }
}

/// What a value is, seen by contents.
pub open spec fn value_view(r: Result<String, Obstacle>) -> Result<Seq<char>, ObstacleModel> {
    match r {
        Ok(s) => Ok(s@),
        Err(e) => Err(e.deep_view()),
    }
}

fn get_or_empty(t: &Option<String>) -> (r: String)
    ensures
        r@ == or_empty(t.deep_view()),
{
    match t {
        Some(s) => s.clone(),
        None => String::new(),
    }
}

fn stability_string(s: Stability) -> (r: String)
    ensures
        r@ == stability_text(s),
{
    match s {
        Stability::Stable => "stable".to_owned(),
        Stability::Normal => "normal".to_owned(),
        Stability::Volatile => "volatile".to_owned(),
    }
}

fn error_about(message: &str, about: &str) -> (r: Obstacle)
    ensures
        r.deep_view() == ObstacleModel::Error(message@ + about@),
{
    let mut out = message.to_owned();
    out.append(about);
    Obstacle::Error(out)
}

fn eval_module_property(module: &ModuleSpec, prop: &str) -> (r: Result<String, Obstacle>)
    ensures
        value_view(r) == module_property(module.deep_view(), prop@),
{
    if text::same(prop, "module") || text::same(prop, "name") {
        Ok(module.module.clone())
    } else if text::same(prop, "language") {
        Ok(get_or_empty(&module.language))
    } else if text::same(prop, "source_path") || text::same(prop, "path") {
        Ok(get_or_empty(&module.source_path))
    } else if text::same(prop, "layer") {
        match &module.layer {
            Some(l) => Ok(l.0.clone()),
            None => Ok(String::new()),
        }
    } else if text::same(prop, "context") {
        Ok(get_or_empty(&module.context))
    } else if text::same(prop, "stability") {
        match module.stability {
            Some(s) => Ok(stability_string(s)),
            None => Ok(String::new()),
        }
    } else {
        Err(error_about("Unknown property: ", prop))
    }
}

fn parse_stability_literal(s: &str) -> (r: Option<Stability>)
    ensures
        r == stability_literal(s@),
{
    let lower = s.to_lowercase();
    let name = lower.as_str();
    if text::same(name, "stable") || text::same(name, "stability::stable") {
        Some(Stability::Stable)
    } else if text::same(name, "normal") || text::same(name, "stability::normal") {
        Some(Stability::Normal)
    } else if text::same(name, "volatile") || text::same(name, "stability::volatile") {
        Some(Stability::Volatile)
    } else {
        None
    }
}

fn value_of_chars(expr: &[char], ctx: &EvalContext) -> (r: Result<String, Obstacle>)
    ensures
        value_view(r) == value_of(expr@, ctx.deep_view()),
{
    let s = text::trim_chars(expr);
    let n: usize = s.len();
    if n > 0 && ((s[0] == '"' && s[n - 1] == '"') || (s[0] == '\'' && s[n - 1] == '\'')) {
        if n == 1 {
            return Err(Obstacle::Stuck);
        }
        return Ok(text::piece(s, 1, n - 1));
    }
    let whole = text::string_of(s);
    if let Some(level) = parse_stability_literal(whole.as_str()) {
        return Ok(stability_string(level));
    }
    proof {
        reveal_strlit("source.");
        reveal_strlit("target.");
    }
    if text::chars_start_with(s, "source.") {
        assert(s@.skip(7) =~= s@.subrange(7, n as int));
        return eval_module_property(ctx.source, text::piece(s, 7, n).as_str());
    }
    if text::chars_start_with(s, "target.") {
        assert(s@.skip(7) =~= s@.subrange(7, n as int));
        return eval_module_property(ctx.target, text::piece(s, 7, n).as_str());
    }
    Ok(whole)
}

/// Evaluates an expression without operators to a text.
pub fn checked_eval_value(expr: &str, ctx: &EvalContext) -> (r: Result<String, Obstacle>)
    ensures
        value_view(r) == value_of(expr@, ctx.deep_view()),
{
    let chars = text::chars_of(expr);
    value_of_chars(chars.as_slice(), ctx)
}

fn find_operator(s: &[char], op: &[char]) -> (r: Result<Option<usize>, Obstacle>)
    ensures
        match r {
            Ok(Some(i)) => operator_from(s@, op@, 0, 0) == Ok::<Option<int>, ObstacleModel>(
                Some(i as int),
            ) && i + op@.len() <= s@.len(),
            Ok(None) => operator_from(s@, op@, 0, 0) == Ok::<Option<int>, ObstacleModel>(None),
            Err(e) => operator_from(s@, op@, 0, 0) == Err::<Option<int>, ObstacleModel>(
                e.deep_view(),
            ),
        },
{
    let mut depth: i128 = 0;
    let mut i: usize = 0;
    while i < s.len()
        invariant
            i <= s@.len(),
            -i <= depth <= i,
            operator_from(s@, op@, 0, 0) == operator_from(s@, op@, i as int, depth as int),
        decreases s@.len() - i,
    {
        let c = s[i];
        if c == '(' {
            depth += 1;
        } else if c == ')' {
            depth -= 1;
        } else if depth == 0 {
            if text::chars_occur_at(s, op, i) {
                return Ok(Some(i));
            }
            if c as u32 >= 128 {
                return Err(Obstacle::Stuck);
            }
        }
        i += 1;
    }
    Ok(None)
}

/// The two sides of the first of the operators that splits the expression.
fn split_binary_op<'a>(s: &'a [char], ops: &Vec<String>) -> (r: Result<
    Option<(&'a [char], &'a [char])>,
    Obstacle,
>)
    requires
        forall|k: int| 0 <= k < ops@.len() ==> (#[trigger] ops@[k])@.len() > 0,
    ensures
        match r {
            Ok(Some((left, right))) => sides(s@, ops.deep_view(), 0) == Ok::<
                Option<(Seq<char>, Seq<char>)>,
                ObstacleModel,
            >(Some((left@, right@))) && left@.len() < s@.len() && right@.len() < s@.len(),
            Ok(None) => sides(s@, ops.deep_view(), 0) == Ok::<
                Option<(Seq<char>, Seq<char>)>,
                ObstacleModel,
            >(None),
            Err(e) => sides(s@, ops.deep_view(), 0) == Err::<
                Option<(Seq<char>, Seq<char>)>,
                ObstacleModel,
            >(e.deep_view()),
        },
{
    let n: usize = s.len();
    let mut k: usize = 0;
    while k < ops.len()
        invariant
            k <= ops@.len(),
            n == s@.len(),
            forall|j: int| 0 <= j < ops@.len() ==> (#[trigger] ops@[j])@.len() > 0,
            sides(s@, ops.deep_view(), 0) == sides(s@, ops.deep_view(), k as int),
        decreases ops@.len() - k,
    {
        let op = text::chars_of(ops[k].as_str());
        assert(ops.deep_view()[k as int] == ops@[k as int]@);
        let found = find_operator(s, op.as_slice())?;
        if let Some(i) = found {
            let left = slice_subrange(s, 0, i);
            let right = slice_subrange(s, i + op.len(), n);
            assert(s@.take(i as int) =~= left@);
            assert(s@.skip(i + op@.len()) =~= right@);
            return Ok(Some((left, right)));
        }
        k += 1;
    }
    Ok(None)
}

fn make_operators(a: &str, b: &str, c: &str) -> (r: Vec<String>)
    ensures
        r.deep_view() == seq![a@, b@, c@],
        r@.len() == 3,
        r@[0]@ == a@,
        r@[1]@ == b@,
        r@[2]@ == c@,
{
    let r: Vec<String> = vec![a.to_owned(), b.to_owned(), c.to_owned()];
    assert(r.deep_view() =~= seq![a@, b@, c@]);
    r
}

fn split_once<'a>(s: &'a [char], op: &str) -> (r: Result<Option<(&'a [char], &'a [char])>, Obstacle>)
    requires
        op@.len() > 0,
    ensures
        match r {
            Ok(Some((left, right))) => sides(s@, seq![op@], 0) == Ok::<
                Option<(Seq<char>, Seq<char>)>,
                ObstacleModel,
            >(Some((left@, right@))),
            Ok(None) => sides(s@, seq![op@], 0) == Ok::<
                Option<(Seq<char>, Seq<char>)>,
                ObstacleModel,
            >(None),
            Err(e) => sides(s@, seq![op@], 0) == Err::<
                Option<(Seq<char>, Seq<char>)>,
                ObstacleModel,
            >(e.deep_view()),
        },
{
    let ops: Vec<String> = vec![op.to_owned()];
    assert(ops.deep_view() =~= seq![op@]);
    match split_binary_op(s, &ops) {
        Ok(r) => Ok(r),
        Err(e) => Err(e),
    }
}

fn compare(left: &[char], right: &[char], ctx: &EvalContext) -> (r: Result<bool, Obstacle>)
    ensures
        truth_view(r) == compared((left@, right@), ctx.deep_view()),
{
    let a = value_of_chars(text::trim_chars(left), ctx)?;
    let b = value_of_chars(text::trim_chars(right), ctx)?;
    Ok(a == b)
}

fn eval_can_depend_on(s: &[char], ctx: &EvalContext) -> (r: Result<bool, Obstacle>)
    ensures
        truth_view(r) == dependency_allowed(s@, ctx.deep_view()),
{
    if text::chars_contain(s, "layer.can_depend_on") {
        match (&ctx.source.layer, &ctx.target.layer) {
            (Some(a), Some(b)) => Ok(ctx.layer_config.can_depend_on(a.0.as_str(), b.0.as_str())),
            _ => Ok(true),
        }
    } else if text::chars_contain(s, "stability.can_depend_on") {
        match (ctx.source.stability, ctx.target.stability) {
            (Some(a), Some(b)) => Ok(a.can_depend_on(&b)),
            _ => Ok(true),
        }
    } else {
        Err(error_about("Unknown can_depend_on expression: ", text::string_of(s).as_str()))
    }
}

fn take_asked_property(s: &[char]) -> (r: String)
    requires
        s@.len() >= 7,
    ensures
        r@ == asked_property(s@),
{
    let rest = slice_subrange(s, 7, s.len());
    assert(rest@ =~= s@.skip(7));
    proof {
        reveal_strlit(".exists");
    }
    if text::chars_end_with(rest, ".exists") {
        assert(rest@.take(rest@.len() - 7) =~= rest@.subrange(0, rest@.len() - 7));
        text::piece(rest, 0, rest.len() - 7)
    } else {
        text::string_of(s)
    }
}

fn eval_exists(s: &[char], ctx: &EvalContext) -> (r: Result<bool, Obstacle>)
    ensures
        truth_view(r) == property_exists(s@, ctx.deep_view()),
{
    proof {
        reveal_strlit("source.");
        reveal_strlit("target.");
    }
    let value = if text::chars_start_with(s, "source.") {
        eval_module_property(ctx.source, take_asked_property(s).as_str())?
    } else if text::chars_start_with(s, "target.") {
        eval_module_property(ctx.target, take_asked_property(s).as_str())?
    } else {
        return Err(error_about("Unknown exists expression: ", text::string_of(s).as_str()));
    };
    Ok(!value.as_str().is_empty())
}

fn eval_comparison(s: &[char], ctx: &EvalContext) -> (r: Result<bool, Obstacle>)
    ensures
        truth_view(r) == comparison_value(s@, ctx.deep_view()),
{
    proof {
        reveal_strlit("==");
        reveal_strlit("!=");
    }
    let equal = split_once(s, "==")?;
    if let Some((left, right)) = equal {
        return compare(left, right, ctx);
    }
    let unequal = split_once(s, "!=")?;
    if let Some((left, right)) = unequal {
        let b = compare(left, right, ctx)?;
        return Ok(!b);
    }
    if text::chars_contain(s, ".can_depend_on(") {
        return eval_can_depend_on(s, ctx);
    }
    if text::chars_contain(s, ".exists") {
        return eval_exists(s, ctx);
    }
    let v = value_of_chars(s, ctx)?;
    Ok(!v.as_str().is_empty() && !text::same(v.as_str(), "none") && !text::same(v.as_str(), "null"))
}

fn strip_negation(s: &[char]) -> (r: Option<&[char]>)
    ensures
        match r {
            Some(inner) => negated(s@) == Some(inner@) && inner@.len() < s@.len(),
            None => negated(s@) is None,
        },
{
    proof {
        reveal_strlit("NOT ");
        reveal_strlit("not ");
        reveal_strlit("!");
    }
    let n: usize = s.len();
    if text::chars_start_with(s, "NOT ") || text::chars_start_with(s, "not ") {
        assert(s@.skip(4) =~= s@.subrange(4, n as int));
        proof {
            text::lemma_trim_len(s@.skip(4));
        }
        Some(text::trim_chars(slice_subrange(s, 4, n)))
    } else if text::chars_start_with(s, "!") {
        assert(s@.skip(1) =~= s@.subrange(1, n as int));
        proof {
            text::lemma_trim_len(s@.skip(1));
        }
        Some(text::trim_chars(slice_subrange(s, 1, n)))
    } else {
        None
    }
}

fn evaluate_chars(expr: &[char], ctx: &EvalContext) -> (r: Result<bool, Obstacle>)
    ensures
        truth_view(r) == expression_value(expr@, ctx.deep_view()),
    decreases expr@.len(),
{
    let s = text::trim_chars(expr);
    proof {
        text::lemma_trim_len(expr@);
        reveal_strlit(" OR ");
        reveal_strlit(" or ");
        reveal_strlit("||");
        reveal_strlit(" AND ");
        reveal_strlit(" and ");
        reveal_strlit("&&");
    }
    if text::chars_are(s, "true") {
        return Ok(true);
    }
    if text::chars_are(s, "false") {
        return Ok(false);
    }
    let ors = make_operators(" OR ", " or ", "||");
    let alternatives = split_binary_op(s, &ors)?;
    if let Some((left, right)) = alternatives {
        let b = evaluate_chars(left, ctx)?;
        if b {
            return Ok(true);
        }
        return evaluate_chars(right, ctx);
    }
    let ands = make_operators(" AND ", " and ", "&&");
    let conjuncts = split_binary_op(s, &ands)?;
    if let Some((left, right)) = conjuncts {
        let b = evaluate_chars(left, ctx)?;
        if !b {
            return Ok(false);
        }
        return evaluate_chars(right, ctx);
    }
    if let Some(inner) = strip_negation(s) {
        let b = evaluate_chars(inner, ctx)?;
        return Ok(!b);
    }
    eval_comparison(s, ctx)
}

/// Evaluates a rule expression, or says that it cannot be evaluated at all.
pub fn checked_evaluate(expr: &str, ctx: &EvalContext) -> (r: Result<bool, Obstacle>)
    ensures
        truth_view(r) == expression_value(expr@, ctx.deep_view()),
{
    let chars = text::chars_of(expr);
    evaluate_chars(chars.as_slice(), ctx)
}

/// Evaluates a rule expression. Every expression of ASCII characters without quote marks can be
/// evaluated.
pub fn evaluate(expr: &str, ctx: &EvalContext) -> (r: Result<bool, String>)
    requires
        is_plain(expr@) || expression_value(expr@, ctx.deep_view()) != Err::<bool, ObstacleModel>(
            ObstacleModel::Stuck,
        ),
    ensures
        match r {
            Ok(b) => expression_value(expr@, ctx.deep_view()) == Ok::<bool, ObstacleModel>(b),
            Err(m) => expression_value(expr@, ctx.deep_view()) == Err::<bool, ObstacleModel>(
                ObstacleModel::Error(m@),
            ),
        },
{
    proof {
        if is_plain(expr@) {
            plain_expressions_have_values(expr@, ctx.deep_view());
        }
    }
    match checked_evaluate(expr, ctx) {
        Ok(b) => Ok(b),
        Err(Obstacle::Error(m)) => Err(m),
        Err(Obstacle::Stuck) => Err(String::new()),
    }
}

/// Evaluates an expression without operators to a text.
pub fn eval_value(expr: &str, ctx: &EvalContext) -> (r: Result<String, String>)
    requires
        is_plain(expr@) || value_of(expr@, ctx.deep_view()) != Err::<Seq<char>, ObstacleModel>(
            ObstacleModel::Stuck,
        ),
    ensures
        match r {
            Ok(v) => value_of(expr@, ctx.deep_view()) == Ok::<Seq<char>, ObstacleModel>(v@),
            Err(m) => value_of(expr@, ctx.deep_view()) == Err::<Seq<char>, ObstacleModel>(
                ObstacleModel::Error(m@),
            ),
        },
{
    proof {
        if is_plain(expr@) {
            lemma_plain_value(expr@, ctx.deep_view());
        }
    }
    match checked_eval_value(expr, ctx) {
        Ok(v) => Ok(v),
        Err(Obstacle::Error(m)) => Err(m),
        Err(Obstacle::Stuck) => Err(String::new()),
    }
}

// ─── Checking dependencies ────────────────────────────────────────────────────

/// A rule that a dependency breaks.
#[derive(Debug)]
pub struct RuleViolation {
    pub rule_name: String,
    pub message: String,
    pub severity: Severity,
}

/// What a [`RuleViolation`] holds.
#[verifier::ext_equal]
pub struct RuleViolationModel {
    pub rule_name: Seq<char>,
    pub message: Seq<char>,
    pub severity: Severity,
}

impl DeepView for RuleViolation {
    type V = RuleViolationModel;

    open spec fn deep_view(&self) -> RuleViolationModel {
        RuleViolationModel {
            rule_name: self.rule_name.deep_view(),
            message: self.message.deep_view(),
            severity: self.severity,
        }
    }
}

impl Clone for RuleViolation {
    fn clone(&self) -> (r: Self)
        ensures
            r.deep_view() == self.deep_view(),
    {
        self.duplicate()
    }
}

impl Duplicate for RuleViolation {
    fn duplicate(&self) -> (r: Self) {
        RuleViolation {
            rule_name: self.rule_name.duplicate(),
            message: self.message.duplicate(),
            severity: self.severity,
        }
    }
}

/// The built-in rules.
pub open spec fn builtin_rule_models() -> Seq<RuleModel> {
    seq![
        RuleModel {
            name: "layer-direction"@,
            description: Some("Higher layers can depend on lower layers, not vice versa"@),
            when: "source.layer.exists AND target.layer.exists"@,
            require: "source.layer.can_depend_on(target.layer)"@,
            severity: Severity::Error,
        },
        RuleModel {
            name: "context-isolation"@,
            description: Some(
                "Cross-context dependencies must go through Interface or Presentation layer"@,
            ),
            when: "source.context.exists AND target.context.exists AND source.context != target.context"@,
            require: "source.layer == interface OR target.layer == interface OR source.layer == presentation OR target.layer == presentation"@,
            severity: Severity::Error,
        },
        RuleModel {
            name: "stability-direction"@,
            description: Some("Stable modules cannot depend on less stable modules"@),
            when: "source.stability.exists AND target.stability.exists"@,
            require: "source.stability.can_depend_on(target.stability)"@,
            severity: Severity::Error,
        },
    ]
}

fn make_rule(name: &str, description: &str, when: &str, require: &str) -> (r: Rule)
    ensures
        r.deep_view() == (RuleModel {
            name: name@,
            description: Some(description@),
            when: when@,
            require: require@,
            severity: Severity::Error,
        }),
{
    Rule {
        name: name.to_owned(),
        description: Some(description.to_owned()),
        when: when.to_owned(),
        require: require.to_owned(),
        severity: Severity::Error,
    }
}

pub fn builtin_rules() -> (r: Vec<Rule>)
    ensures
        r.deep_view() == builtin_rule_models(),
        all_plain(r.deep_view()),
{
    proof {
        lemma_builtin_plain();
    }
    let r: Vec<Rule> = vec![
        make_rule(
            "layer-direction",
            "Higher layers can depend on lower layers, not vice versa",
            "source.layer.exists AND target.layer.exists",
            "source.layer.can_depend_on(target.layer)",
        ),
        make_rule(
            "context-isolation",
            "Cross-context dependencies must go through Interface or Presentation layer",
            "source.context.exists AND target.context.exists AND source.context != target.context",
            "source.layer == interface OR target.layer == interface OR source.layer == presentation OR target.layer == presentation",
        ),
        make_rule(
            "stability-direction",
            "Stable modules cannot depend on less stable modules",
            "source.stability.exists AND target.stability.exists",
            "source.stability.can_depend_on(target.stability)",
        ),
    ];
    assert(r.deep_view() =~= builtin_rule_models());
    r
}

/// Where the source of a module lies, or else its name.
pub open spec fn module_label(m: ModuleSpecModel) -> Seq<char> {
    match m.source_path {
        Some(p) => p,
        None => m.module,
    }
}

/// What a dependency breaks of a rule, if anything. A rule whose condition or requirement
/// has an error is broken by every dependency to which it may apply. None where one of the
/// two cannot be evaluated at all.
pub open spec fn rule_outcome(rule: RuleModel, ctx: EvalContextModel) -> Option<
    Option<RuleViolationModel>,
> {
    match expression_value(rule.when, ctx) {
        Err(ObstacleModel::Stuck) => None,
        Err(ObstacleModel::Error(e)) => Some(
            Some(
                RuleViolationModel {
                    rule_name: rule.name,
                    message: "Error evaluating 'when': "@ + e,
                    severity: Severity::Error,
                },
            ),
        ),
        Ok(false) => Some(None),
        Ok(true) => match expression_value(rule.require, ctx) {
            Err(ObstacleModel::Stuck) => None,
            Err(ObstacleModel::Error(e)) => Some(
                Some(
                    RuleViolationModel {
                        rule_name: rule.name,
                        message: "Error evaluating 'require': "@ + e,
                        severity: Severity::Error,
                    },
                ),
            ),
            Ok(true) => Some(None),
            Ok(false) => Some(
                Some(
                    RuleViolationModel {
                        rule_name: rule.name,
                        message: "'"@ + module_label(ctx.source) + "' -> '"@ + module_label(
                            ctx.target,
                        ) + "': "@ + match rule.description {
                            Some(d) => d,
                            None => rule.name,
                        },
                        severity: rule.severity,
                    },
                ),
            ),
        },
    }
}

/// What a dependency breaks of the rules from the `i`-th on, behind what is done.
pub open spec fn violations_from(
    rules: Seq<RuleModel>,
    i: int,
    done: Seq<RuleViolationModel>,
    ctx: EvalContextModel,
) -> Option<Seq<RuleViolationModel>>
    decreases rules.len() - i,
{
    if i < 0 || i >= rules.len() {
        Some(done)
    } else {
        match rule_outcome(rules[i], ctx) {
            Some(Some(v)) => violations_from(rules, i + 1, done.push(v), ctx),
            Some(None) => violations_from(rules, i + 1, done, ctx),
            None => None,
        }
    }
}

/// The rules that a dependency breaks, in order.
pub open spec fn violations_of(rules: Seq<RuleModel>, ctx: EvalContextModel) -> Option<
    Seq<RuleViolationModel>,
> {
    violations_from(rules, 0, Seq::empty(), ctx)
}

fn make_violation(rule: &Rule, message: String, severity: Severity) -> (r: RuleViolation)
    ensures
        r.deep_view() == (RuleViolationModel {
            rule_name: rule.name@,
            message: message@,
            severity,
        }),
{
    RuleViolation { rule_name: rule.name.clone(), message, severity }
}

fn joined(a: &str, b: &str) -> (r: String)
    ensures
        r@ == a@ + b@,
{
    let mut out = a.to_owned();
    out.append(b);
    out
}

fn get_module_label(m: &ModuleSpec) -> (r: &str)
    ensures
        r@ == module_label(m.deep_view()),
{
    match &m.source_path {
        Some(p) => p.as_str(),
        None => m.module.as_str(),
    }
}

fn apply_rule(rule: &Rule, ctx: &EvalContext) -> (r: Option<Option<RuleViolation>>)
    ensures
        r.deep_view() == rule_outcome(rule.deep_view(), ctx.deep_view()),
{
    let applies = match checked_evaluate(rule.when.as_str(), ctx) {
        Ok(b) => b,
        Err(Obstacle::Error(e)) => {
            let message = joined("Error evaluating 'when': ", e.as_str());
            return Some(Some(make_violation(rule, message, Severity::Error)));
        },
        Err(Obstacle::Stuck) => {
            return None;
        },
    };
    if !applies {
        return Some(None);
    }
    let satisfied = match checked_evaluate(rule.require.as_str(), ctx) {
        Ok(b) => b,
        Err(Obstacle::Error(e)) => {
            let message = joined("Error evaluating 'require': ", e.as_str());
            return Some(Some(make_violation(rule, message, Severity::Error)));
        },
        Err(Obstacle::Stuck) => {
            return None;
        },
    };
    if satisfied {
        return Some(None);
    }
    let mut message = "'".to_owned();
    message.append(get_module_label(ctx.source));
    message.append("' -> '");
    message.append(get_module_label(ctx.target));
    message.append("': ");
    message.append(
        match &rule.description {
            Some(d) => d.as_str(),
            None => rule.name.as_str(),
        },
    );
    Some(Some(make_violation(rule, message, rule.severity)))
}

/// Checks a dependency against all rules, or says that one of them cannot be evaluated.
pub fn checked_check_dependency(
    source: &ModuleSpec,
    target: &ModuleSpec,
    rules: &[Rule],
    layer_config: &LayerConfig,
) -> (r: Option<Vec<RuleViolation>>)
    ensures
        r.deep_view() == violations_of(
            rules.deep_view(),
            (EvalContextModel {
                source: source.deep_view(),
                target: target.deep_view(),
                layers: layer_config.deep_view(),
            }),
        ),
{
    let ctx = EvalContext { source, target, layer_config };
    let ghost model = ctx.deep_view();
    let mut violations: Vec<RuleViolation> = Vec::new();
    assert(violations.deep_view() =~= Seq::empty());
    let mut i: usize = 0;
    while i < rules.len()
        invariant
            i <= rules@.len(),
            model == ctx.deep_view(),
            model.source == source.deep_view(),
            model.target == target.deep_view(),
            model.layers == layer_config.deep_view(),
            violations_of(rules.deep_view(), model) == violations_from(
                rules.deep_view(),
                i as int,
                violations.deep_view(),
                model,
            ),
        decreases rules@.len() - i,
    {
        assert(rules.deep_view()[i as int] == rules@[i as int].deep_view());
        match apply_rule(&rules[i], &ctx) {
            Some(Some(v)) => {
                append_item(&mut violations, v);
            },
            Some(None) => {},
            None => {
                return None;
            },
        }
        i += 1;
    }
    Some(violations)
}

/// Checks a dependency against all rules. Rules of ASCII characters without quote marks, such
/// as the built-in ones, can always be checked.
pub fn check_dependency(
    source: &ModuleSpec,
    target: &ModuleSpec,
    rules: &[Rule],
    layer_config: &LayerConfig,
) -> (r: Vec<RuleViolation>)
    requires
        all_plain(rules.deep_view()) || violations_of(
            rules.deep_view(),
            (EvalContextModel {
                source: source.deep_view(),
                target: target.deep_view(),
                layers: layer_config.deep_view(),
            }),
        ) is Some,
    ensures
        violations_of(
            rules.deep_view(),
            (EvalContextModel {
                source: source.deep_view(),
                target: target.deep_view(),
                layers: layer_config.deep_view(),
            }),
        ) == Some(r.deep_view()),
{
    proof {
        if all_plain(rules.deep_view()) {
            plain_rules_can_be_checked(
                rules.deep_view(),
                (EvalContextModel {
                    source: source.deep_view(),
                    target: target.deep_view(),
                    layers: layer_config.deep_view(),
                }),
            );
        }
    }
    match checked_check_dependency(source, target, rules, layer_config) {
        Some(v) => v,
        None => Vec::new(),
    }
}

// ─── Laws ─────────────────────────────────────────────────────────────────────

/// A text of ASCII characters without quote marks.
pub open spec fn is_plain(s: Seq<char>) -> bool {
    forall|i: int| 0 <= i < s.len() ==> is_plain_char(#[trigger] s[i])
}

/// Whether all rules are such texts.
pub open spec fn all_plain(rules: Seq<RuleModel>) -> bool {
    forall|k: int|
        0 <= k < rules.len() ==> is_plain((#[trigger] rules[k]).when) && is_plain(
            rules[k].require,
        )
}

pub open spec fn is_plain_char(c: char) -> bool {
    (c as u32) < 128 && c != '"' && c != '\''
}

proof fn lemma_plain_trim(s: Seq<char>)
    requires
        is_plain(s),
    ensures
        is_plain(text::trim(s)),
{
    lemma_plain_trim_start(s);
    lemma_plain_trim_end(text::trim_start(s));
}

proof fn lemma_plain_trim_start(s: Seq<char>)
    requires
        is_plain(s),
    ensures
        is_plain(text::trim_start(s)),
    decreases s.len(),
{
    if s.len() > 0 && text::is_whitespace(s[0]) {
        lemma_plain_trim_start(s.drop_first());
    }
}

proof fn lemma_plain_trim_end(s: Seq<char>)
    requires
        is_plain(s),
    ensures
        is_plain(text::trim_end(s)),
    decreases s.len(),
{
    if s.len() > 0 && text::is_whitespace(s.last()) {
        lemma_plain_trim_end(s.drop_last());
    }
}

proof fn lemma_plain_operator(s: Seq<char>, op: Seq<char>, i: int, depth: int)
    requires
        is_plain(s),
        0 <= i,
    ensures
        operator_from(s, op, i, depth) is Ok,
        operator_from(s, op, i, depth) matches Ok(Some(k)) ==> i <= k && k + op.len() <= s.len(),
    decreases s.len() - i,
{
    if i < s.len() {
        lemma_plain_operator(s, op, i + 1, depth + 1);
        lemma_plain_operator(s, op, i + 1, depth - 1);
        lemma_plain_operator(s, op, i + 1, depth);
        assert(is_plain_char(s[i]));
    }
}

proof fn lemma_plain_sides(s: Seq<char>, ops: Seq<Seq<char>>, k: int)
    requires
        is_plain(s),
        0 <= k,
        forall|j: int| 0 <= j < ops.len() ==> (#[trigger] ops[j]).len() > 0,
    ensures
        sides(s, ops, k) is Ok,
        sides(s, ops, k) matches Ok(Some((left, right))) ==> is_plain(left) && is_plain(right)
            && left.len() < s.len() && right.len() < s.len(),
    decreases ops.len() - k,
{
    if k < ops.len() {
        lemma_plain_operator(s, ops[k], 0, 0);
        lemma_plain_sides(s, ops, k + 1);
    }
}

proof fn lemma_plain_value(s: Seq<char>, ctx: EvalContextModel)
    requires
        is_plain(s),
    ensures
        value_of(s, ctx) != Err::<Seq<char>, ObstacleModel>(ObstacleModel::Stuck),
{
    lemma_plain_trim(s);
    let t = text::trim(s);
    if t.len() > 0 {
        assert(is_plain_char(t[0]));
    }
}

proof fn lemma_plain_comparison(s: Seq<char>, ctx: EvalContextModel)
    requires
        is_plain(s),
    ensures
        comparison_value(s, ctx) != Err::<bool, ObstacleModel>(ObstacleModel::Stuck),
{
    reveal_strlit("==");
    reveal_strlit("!=");
    let equal = seq!["=="@];
    let unequal = seq!["!="@];
    lemma_plain_sides(s, equal, 0);
    lemma_plain_sides(s, unequal, 0);
    match sides(s, equal, 0) {
        Ok(Some((left, right))) => {
            lemma_plain_trim(left);
            lemma_plain_trim(right);
            lemma_plain_value(text::trim(left), ctx);
            lemma_plain_value(text::trim(right), ctx);
        },
        _ => match sides(s, unequal, 0) {
            Ok(Some((left, right))) => {
                lemma_plain_trim(left);
                lemma_plain_trim(right);
                lemma_plain_value(text::trim(left), ctx);
                lemma_plain_value(text::trim(right), ctx);
            },
            _ => {
                lemma_plain_value(s, ctx);
            },
        },
    }
}

/// An expression of ASCII characters without quote marks can always be evaluated.
pub proof fn plain_expressions_have_values(expr: Seq<char>, ctx: EvalContextModel)
    requires
        is_plain(expr),
    ensures
        expression_value(expr, ctx) != Err::<bool, ObstacleModel>(ObstacleModel::Stuck),
    decreases expr.len(),
{
    let s = text::trim(expr);
    lemma_plain_trim(expr);
    text::lemma_trim_len(expr);
    reveal_strlit(" OR ");
    reveal_strlit(" or ");
    reveal_strlit("||");
    reveal_strlit(" AND ");
    reveal_strlit(" and ");
    reveal_strlit("&&");
    reveal_strlit("NOT ");
    reveal_strlit("not ");
    reveal_strlit("!");
    lemma_plain_sides(s, or_operators(), 0);
    lemma_plain_sides(s, and_operators(), 0);
    match sides(s, or_operators(), 0) {
        Ok(Some((left, right))) => {
            plain_expressions_have_values(left, ctx);
            plain_expressions_have_values(right, ctx);
        },
        _ => match sides(s, and_operators(), 0) {
            Ok(Some((left, right))) => {
                plain_expressions_have_values(left, ctx);
                plain_expressions_have_values(right, ctx);
            },
            _ => match negated(s) {
                Some(inner) => {
                    if text::starts_with(s, "NOT "@) || text::starts_with(s, "not "@) {
                        text::lemma_trim_len(s.skip(4));
                        lemma_plain_trim(s.skip(4));
                    } else {
                        text::lemma_trim_len(s.skip(1));
                        lemma_plain_trim(s.skip(1));
                    }
                    plain_expressions_have_values(inner, ctx);
                },
                None => {
                    lemma_plain_comparison(s, ctx);
                },
            },
        },
    }
}

/// A rule with plain expressions can be applied to every dependency.
pub proof fn plain_rules_have_outcomes(rule: RuleModel, ctx: EvalContextModel)
    requires
        is_plain(rule.when),
        is_plain(rule.require),
    ensures
        rule_outcome(rule, ctx) is Some,
{
    plain_expressions_have_values(rule.when, ctx);
    plain_expressions_have_values(rule.require, ctx);
}

proof fn lemma_plain_violations(
    rules: Seq<RuleModel>,
    i: int,
    done: Seq<RuleViolationModel>,
    ctx: EvalContextModel,
)
    requires
        0 <= i <= rules.len(),
        forall|k: int|
            0 <= k < rules.len() ==> is_plain((#[trigger] rules[k]).when) && is_plain(
                rules[k].require,
            ),
    ensures
        violations_from(rules, i, done, ctx) is Some,
    decreases rules.len() - i,
{
    if i < rules.len() {
        plain_rules_have_outcomes(rules[i], ctx);
        match rule_outcome(rules[i], ctx) {
            Some(Some(v)) => {
                lemma_plain_violations(rules, i + 1, done.push(v), ctx);
            },
            _ => {
                lemma_plain_violations(rules, i + 1, done, ctx);
            },
        }
    }
}

/// Rules with plain expressions can be checked on every dependency.
pub proof fn plain_rules_can_be_checked(rules: Seq<RuleModel>, ctx: EvalContextModel)
    requires
        all_plain(rules),
    ensures
        violations_of(rules, ctx) is Some,
{
    lemma_plain_violations(rules, 0, Seq::empty(), ctx);
}

/// The built-in rules can be checked on every dependency.
pub proof fn builtin_rules_can_be_checked(ctx: EvalContextModel)
    ensures
        violations_of(builtin_rule_models(), ctx) is Some,
{
    lemma_builtin_plain();
    plain_rules_can_be_checked(builtin_rule_models(), ctx);
}

proof fn lemma_builtin_plain()
    ensures
        all_plain(builtin_rule_models()),
{
    assert(is_plain("source.layer.exists AND target.layer.exists"@)) by {
        reveal_strlit("source.layer.exists AND target.layer.exists");
    }
    assert(is_plain("source.layer.can_depend_on(target.layer)"@)) by {
        reveal_strlit("source.layer.can_depend_on(target.layer)");
    }
    assert(is_plain(
        "source.context.exists AND target.context.exists AND source.context != target.context"@,
    )) by {
        reveal_strlit(
            "source.context.exists AND target.context.exists AND source.context != target.context",
        );
    }
    assert(is_plain(
        "source.layer == interface OR target.layer == interface OR source.layer == presentation OR target.layer == presentation"@,
    )) by {
        reveal_strlit(
            "source.layer == interface OR target.layer == interface OR source.layer == presentation OR target.layer == presentation",
        );
    }
    assert(is_plain("source.stability.exists AND target.stability.exists"@)) by {
        reveal_strlit("source.stability.exists AND target.stability.exists");
    }
    assert(is_plain("source.stability.can_depend_on(target.stability)"@)) by {
        reveal_strlit("source.stability.can_depend_on(target.stability)");
    }
}

} // verus!

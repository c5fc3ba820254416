//! What specs take from their directories, from their modules and from the rules of a project.
use vstd::prelude::*;

use crate::checker::{
    configured, enabled_rules, last_segment, mapped_specs, module_name_of, SpecCheckerModel,
};
use crate::data::{
    has_key, key_index, lemma_key_index, lookup, lookup_after_insert, lookup_of_other_key,
    with_names_is_union,
};
use crate::extractors::ExtractedModuleModel;
use crate::rules::{
    configured_layers, input_layers, LayerDepsInputModel, LayersInputModel, RuleModel,
    RulesConfigModel,
};
use crate::spec::{
    builtin_layers, dag_layers, exposed_function, exposed_functions, layer_allows, lowercased,
    merged, merged_chain, spec_of_module, steadiness, united, with_defaults, with_optional,
    ModuleSpecModel, SpecDefaultsModel, Stability,
};
use crate::text;

verus! {

// ─── Directories ──────────────────────────────────────────────────────────────

/// Whether an optional list is there and holds a name.
pub open spec fn lists(list: Option<Seq<Seq<char>>>, x: Seq<char>) -> bool {
    list matches Some(l) && l.contains(x)
}

proof fn lemma_united(
    parent: Option<Seq<Seq<char>>>,
    child: Option<Seq<Seq<char>>>,
    x: Seq<char>,
)
    ensures
        lists(united(parent, child), x) <==> lists(parent, x) || lists(child, x),
        united(parent, child) is None <==> parent is None && child is None,
{
    if let (Some(p), Some(c)) = (parent, child) {
        with_names_is_union(p, c, x);
    }
}

/// What a child directory sets holds, and where it sets nothing, what its parent sets; each
/// list holds what one of both lists.
pub proof fn directories_inherit(
    parent: SpecDefaultsModel,
    child: SpecDefaultsModel,
    x: Seq<char>,
)
    ensures
        ({
            let both = merged(parent, child);
            &&& child.language is None ==> both.language == parent.language
            &&& child.layer is None ==> both.layer == parent.layer
            &&& child.context is None ==> both.context == parent.context
            &&& child.stability is None ==> both.stability == parent.stability
            &&& child.language is Some ==> both.language == child.language
            &&& child.layer is Some ==> both.layer == child.layer
            &&& child.context is Some ==> both.context == child.context
            &&& child.stability is Some ==> both.stability == child.stability
            &&& lists(both.forbidden_deps, x) <==> lists(parent.forbidden_deps, x) || lists(
                child.forbidden_deps,
                x,
            )
            &&& lists(both.external_deps, x) <==> lists(parent.external_deps, x) || lists(
                child.external_deps,
                x,
            )
            &&& lists(both.forbidden_external, x) <==> lists(parent.forbidden_external, x) || lists(
                child.forbidden_external,
                x,
            )
        }),
{
    lemma_united(parent.forbidden_deps, child.forbidden_deps, x);
    lemma_united(parent.external_deps, child.external_deps, x);
    lemma_united(parent.forbidden_external, child.forbidden_external, x);
}

/// Of a chain of directories the innermost that sets a value decides on it, and all that list
/// something add to the lists.
pub proof fn innermost_directories_decide(chain: Seq<SpecDefaultsModel>, i: int, x: Seq<char>)
    requires
        0 <= i < chain.len(),
    ensures
        ({
            let all = merged_chain(chain);
            &&& chain[i].language is Some && (forall|j: int|
                i < j < chain.len() ==> (#[trigger] chain[j]).language is None) ==> all.language
                == chain[i].language
            &&& chain[i].layer is Some && (forall|j: int|
                i < j < chain.len() ==> (#[trigger] chain[j]).layer is None) ==> all.layer
                == chain[i].layer
            &&& chain[i].context is Some && (forall|j: int|
                i < j < chain.len() ==> (#[trigger] chain[j]).context is None) ==> all.context
                == chain[i].context
            &&& chain[i].stability is Some && (forall|j: int|
                i < j < chain.len() ==> (#[trigger] chain[j]).stability is None) ==> all.stability
                == chain[i].stability
            &&& lists(chain[i].forbidden_deps, x) ==> lists(all.forbidden_deps, x)
            &&& lists(chain[i].external_deps, x) ==> lists(all.external_deps, x)
            &&& lists(chain[i].forbidden_external, x) ==> lists(all.forbidden_external, x)
        }),
    decreases chain.len(),
{
    let front = chain.drop_last();
    directories_inherit(merged_chain(front), chain.last(), x);
    if i < chain.len() - 1 {
        innermost_directories_decide(front, i, x);
        assert(front[i] == chain[i]);
        assert(forall|j: int| 0 <= j < front.len() ==> front[j] == #[trigger] chain[j]);
        assert(chain[chain.len() - 1] == chain.last());
    }
}

/// A spec takes from its defaults what it does not set itself, and what they list; nothing else
/// of it changes.
pub proof fn specs_take_defaults(spec: ModuleSpecModel, defaults: SpecDefaultsModel, x: Seq<char>)
    ensures
        ({
            let full = with_defaults(spec, defaults);
            &&& spec.language is None ==> full.language == defaults.language
            &&& spec.layer is None ==> full.layer == defaults.layer
            &&& spec.context is None ==> full.context == defaults.context
            &&& spec.stability is None ==> full.stability == defaults.stability
            &&& full.forbidden_deps.contains(x) <==> spec.forbidden_deps.contains(x) || lists(
                defaults.forbidden_deps,
                x,
            )
            &&& full.external_deps.contains(x) <==> spec.external_deps.contains(x) || lists(
                defaults.external_deps,
                x,
            )
            &&& full.forbidden_external.contains(x) <==> spec.forbidden_external.contains(x)
                || lists(defaults.forbidden_external, x)
            &&& full == (ModuleSpecModel {
                language: full.language,
                layer: full.layer,
                context: full.context,
                stability: full.stability,
                forbidden_deps: full.forbidden_deps,
                external_deps: full.external_deps,
                forbidden_external: full.forbidden_external,
                ..spec
            })
        }),
{
    lemma_optional(spec.forbidden_deps, defaults.forbidden_deps, x);
    lemma_optional(spec.external_deps, defaults.external_deps, x);
    lemma_optional(spec.forbidden_external, defaults.forbidden_external, x);
}

proof fn lemma_optional(list: Seq<Seq<char>>, more: Option<Seq<Seq<char>>>, x: Seq<char>)
    ensures
        with_optional(list, more).contains(x) <==> list.contains(x) || lists(more, x),
{
    if let Some(m) = more {
        with_names_is_union(list, m, x);
    }
}

// ─── Modules ──────────────────────────────────────────────────────────────────

proof fn lemma_exposed(m: ExtractedModuleModel, n: int, x: Seq<char>)
    requires
        0 <= n <= m.public_functions.len(),
    ensures
        lookup(exposed_functions(m, n), x) is Some <==> exists|i: int|
            0 <= i < n && #[trigger] m.public_functions[i] == x,
        lookup(exposed_functions(m, n), x) matches Some(e) ==> e == exposed_function(
            lookup(m.function_signatures, x),
        ),
    decreases n,
{
    if n > 0 {
        lemma_exposed(m, n - 1, x);
        let before = exposed_functions(m, n - 1);
        let name = m.public_functions[n - 1];
        let entity = exposed_function(lookup(m.function_signatures, name));
        if x == name {
            lookup_after_insert(before, name, entity);
        } else {
            lookup_of_other_key(before, name, entity, x);
            if exists|i: int| 0 <= i < n && #[trigger] m.public_functions[i] == x {
                let i = choose|i: int| 0 <= i < n && #[trigger] m.public_functions[i] == x;
                assert(m.public_functions[i] == x);
            }
        }
    } else {
        lemma_key_index(exposed_functions(m, n), x);
    }
}

/// A spec made from a module says what was extracted from it: its name, language and path, its
/// public functions with their signatures, its imports, its events and its state. It demands
/// nothing else.
pub proof fn fresh_specs_say_what_was_extracted(m: ExtractedModuleModel, x: Seq<char>)
    ensures
        ({
            let spec = spec_of_module(m);
            &&& spec.module == m.name
            &&& spec.language == Some(m.language)
            &&& spec.source_path == m.source_path
            &&& spec.external_deps == m.imports
            &&& spec.emits == m.events
            &&& spec.owns_state == m.state_variables
            &&& lookup(spec.exposes, x) is Some <==> m.public_functions.contains(x)
            &&& lookup(spec.exposes, x) matches Some(e) ==> {
                &&& e.signature == lookup(m.function_signatures, x)
                &&& e.visibility == Some("public"@)
                &&& e.kind is None
                &&& e.type_constraints.len() == 0
                &&& e.requires.len() == 0
                &&& e.ensures.len() == 0
            }
            &&& spec.depends_on.len() == 0
            &&& spec.forbidden_deps.len() == 0
            &&& spec.forbidden_external.len() == 0
            &&& spec.invariants.len() == 0
            &&& spec.subscribes.len() == 0
            &&& spec.reads_state.len() == 0
            &&& spec.modifies.len() == 0
            &&& spec.layer is None
            &&& spec.context is None
            &&& spec.stability is None
            &&& spec.protocol is None
        }),
{
    lemma_exposed(m, m.public_functions.len() as int, x);
}

// ─── Layers and stability ─────────────────────────────────────────────────────

/// A stable module may depend only on stable ones, a volatile one on any, and a normal one on
/// all but volatile ones.
pub proof fn stable_modules_depend_on_stable_ones(other: Stability)
    ensures
        steadiness(Stability::Stable) <= steadiness(other) <==> other == Stability::Stable,
        steadiness(Stability::Normal) <= steadiness(other) <==> other != Stability::Volatile,
        steadiness(Stability::Volatile) <= steadiness(other),
{
}

/// The built-in layers, from the one that depends on all others to the one that depends on
/// none.
pub open spec fn layers_downwards() -> Seq<Seq<char>> {
    seq!["interface"@, "application"@, "domain"@, "infrastructure"@]
}

proof fn lemma_layer_words()
    ensures
        "interface"@.len() == 9,
        "application"@.len() == 11,
        "domain"@.len() == 6,
        "infrastructure"@.len() == 14,
        text::lowercase("interface"@) == "interface"@,
        text::lowercase("application"@) == "application"@,
        text::lowercase("domain"@) == "domain"@,
        text::lowercase("infrastructure"@) == "infrastructure"@,
{
    reveal_strlit("interface");
    reveal_strlit("application");
    reveal_strlit("domain");
    reveal_strlit("infrastructure");
    crate::builtin_rules::lemma_own_lowercase("interface"@);
    crate::builtin_rules::lemma_own_lowercase("application"@);
    crate::builtin_rules::lemma_own_lowercase("domain"@);
    crate::builtin_rules::lemma_own_lowercase("infrastructure"@);
}

/// The four lists of the built-in layers.
proof fn lemma_builtin_lookup(i: int)
    requires
        0 <= i < 4,
    ensures
        lookup(builtin_layers(), layers_downwards()[i]) matches Some(deps) && forall|j: int|
            0 <= j < 4 ==> (deps.contains(#[trigger] layers_downwards()[j]) <==> i < j),
{
    lemma_layer_words();
    let all = builtin_layers();
    let name = layers_downwards()[i];
    lemma_key_index(all, name);
    let k = 3 - i;
    assert(all[k].0 == name);
    assert(crate::data::key_at(all, name, k));
    let found = crate::data::key_index(all, name);
    assert(found == k) by {
        assert(all[found].0 == name);
        assert(all[0].0.len() == 14 && all[1].0.len() == 6 && all[2].0.len() == 11 && all[3].0.len()
            == 9);
        assert(name.len() == all[k].0.len());
    }
    let deps = all[k].1;
    assert forall|j: int| 0 <= j < 4 implies (deps.contains(#[trigger] layers_downwards()[j]) <==> i
        < j) by {
        let other = layers_downwards()[j];
        if i < j {
            assert(deps[j - i - 1] == other);
        } else if deps.contains(other) {
            let p = choose|p: int| 0 <= p < deps.len() && deps[p] == other;
            assert(deps[p] == layers_downwards()[i + 1 + p]);
            assert(deps[p].len() == other.len());
        }
    }
}

/// Of the built-in layers each may depend on itself and on those below it, and on none above.
pub proof fn builtin_layers_depend_downwards(i: int, j: int)
    requires
        0 <= i < 4,
        0 <= j < 4,
    ensures
        layer_allows(builtin_layers(), layers_downwards()[i], layers_downwards()[j]) <==> i <= j,
{
    lemma_layer_words();
    lemma_builtin_lookup(i);
    let a = layers_downwards()[i];
    let b = layers_downwards()[j];
    if i != j {
        assert(a.len() != b.len());
    }
}

proof fn lemma_dag_lookup(dag: Seq<(Seq<char>, Seq<Seq<char>>)>, n: int, i: int)
    requires
        forall|a: int, b: int|
            0 <= a < dag.len() && 0 <= b < dag.len() && a != b ==> text::lowercase(
                (#[trigger] dag[a]).0,
            ) != text::lowercase((#[trigger] dag[b]).0),
        0 <= i < n <= dag.len(),
    ensures
        lookup(dag_layers(dag, n), text::lowercase(dag[i].0)) == Some(lowercased(dag[i].1)),
    decreases n,
{
    let before = dag_layers(dag, n - 1);
    let key = text::lowercase(dag[n - 1].0);
    if i == n - 1 {
        lookup_after_insert(before, key, lowercased(dag[n - 1].1));
    } else {
        lemma_dag_lookup(dag, n - 1, i);
        lookup_of_other_key(before, key, lowercased(dag[n - 1].1), text::lowercase(dag[i].0));
    }
}

/// A layer of a graph may depend on itself and on the layers that the graph lists for it, and
/// on no other; the case of letters does not count.
pub proof fn graph_layers_depend_as_listed(
    dag: Seq<(Seq<char>, Seq<Seq<char>>)>,
    i: int,
    target: Seq<char>,
)
    requires
        forall|a: int, b: int|
            0 <= a < dag.len() && 0 <= b < dag.len() && a != b ==> text::lowercase(
                (#[trigger] dag[a]).0,
            ) != text::lowercase((#[trigger] dag[b]).0),
        0 <= i < dag.len(),
    ensures
        layer_allows(dag_layers(dag, dag.len() as int), dag[i].0, target) <==> text::lowercase(
            dag[i].0,
        ) == text::lowercase(target) || exists|k: int|
            0 <= k < dag[i].1.len() && text::lowercase(#[trigger] dag[i].1[k]) == text::lowercase(
                target,
            ),
{
    lemma_dag_lookup(dag, dag.len() as int, i);
    let deps = lowercased(dag[i].1);
    let t = text::lowercase(target);
    if deps.contains(t) {
        let k = choose|k: int| 0 <= k < deps.len() && deps[k] == t;
        assert(text::lowercase(dag[i].1[k]) == t);
    }
    if exists|k: int| 0 <= k < dag[i].1.len() && text::lowercase(#[trigger] dag[i].1[k]) == t {
        let k = choose|k: int| 0 <= k < dag[i].1.len() && text::lowercase(#[trigger] dag[i].1[k]) == t;
        assert(deps[k] == t);
    }
}

proof fn lemma_input_layers(dag: Seq<(Seq<char>, LayerDepsInputModel)>, n: int)
    requires
        0 <= n <= dag.len(),
        forall|a: int, b: int|
            0 <= a < dag.len() && 0 <= b < dag.len() && a != b ==> (#[trigger] dag[a]).0 != (
            #[trigger] dag[b]).0,
    ensures
        input_layers(dag, n).len() == n,
        forall|k: int|
            0 <= k < n ==> #[trigger] input_layers(dag, n)[k] == (
                dag[k].0,
                dag[k].1.can_depend_on,
            ),
    decreases n,
{
    if n > 0 {
        lemma_input_layers(dag, n - 1);
        let before = input_layers(dag, n - 1);
        let key = dag[n - 1].0;
        lemma_key_index(before, key);
        if has_key(before, key) {
            let k = key_index(before, key);
            assert(before[k].0 == dag[k].0);
        }
    }
}

/// Layers that a project lists as a graph may depend on themselves and on what the graph lists for
/// them, and on no other.
pub proof fn configured_layers_depend_as_listed(
    dag: Seq<(Seq<char>, LayerDepsInputModel)>,
    i: int,
    target: Seq<char>,
)
    requires
        forall|a: int, b: int|
            0 <= a < dag.len() && 0 <= b < dag.len() && a != b ==> text::lowercase(
                (#[trigger] dag[a]).0,
            ) != text::lowercase((#[trigger] dag[b]).0),
        0 <= i < dag.len(),
    ensures
        layer_allows(configured_layers(LayersInputModel::Dag(dag)), dag[i].0, target)
            <==> text::lowercase(dag[i].0) == text::lowercase(target) || exists|k: int|
            0 <= k < dag[i].1.can_depend_on.len() && text::lowercase(
                #[trigger] dag[i].1.can_depend_on[k],
            ) == text::lowercase(target),
{
    let n = dag.len() as int;
    let listed = input_layers(dag, n);
    assert forall|a: int, b: int| 0 <= a < n && 0 <= b < n && a != b implies (#[trigger] dag[a]).0
        != (#[trigger] dag[b]).0 by {
        assert(text::lowercase(dag[a].0) != text::lowercase(dag[b].0));
    }
    lemma_input_layers(dag, n);
    assert(listed[i] == (dag[i].0, dag[i].1.can_depend_on));
    assert forall|a: int, b: int|
        0 <= a < listed.len() && 0 <= b < listed.len() && a != b implies text::lowercase(
        (#[trigger] listed[a]).0,
    ) != text::lowercase((#[trigger] listed[b]).0) by {
        assert(text::lowercase(dag[a].0) != text::lowercase(dag[b].0));
    }
    graph_layers_depend_as_listed(listed, i, target);
}

// ─── Projects ─────────────────────────────────────────────────────────────────

proof fn lemma_enabled(rules: Seq<RuleModel>, disabled: Seq<Seq<char>>, rule: RuleModel)
    ensures
        enabled_rules(rules, disabled).contains(rule) <==> rules.contains(rule)
            && !disabled.contains(rule.name),
    decreases rules.len(),
{
    if rules.len() > 0 {
        let front = rules.drop_last();
        let last = rules.last();
        let before = enabled_rules(front, disabled);
        let now = enabled_rules(rules, disabled);
        lemma_enabled(front, disabled, rule);
        assert(rules =~= front.push(last));
        assert(rules.contains(rule) <==> front.contains(rule) || rule == last) by {
            assert(rules[rules.len() - 1] == last);
            if front.contains(rule) {
                let k = choose|k: int| 0 <= k < front.len() && front[k] == rule;
                assert(rules[k] == rule);
            }
            if rules.contains(rule) {
                let k = choose|k: int| 0 <= k < rules.len() && rules[k] == rule;
                if k < front.len() {
                    assert(front[k] == rule);
                }
            }
        }
        if !disabled.contains(last.name) {
            assert(now[before.len() as int] == last);
            if before.contains(rule) {
                let k = choose|k: int| 0 <= k < before.len() && before[k] == rule;
                assert(now[k] == rule);
            }
            if now.contains(rule) {
                let k = choose|k: int| 0 <= k < now.len() && now[k] == rule;
                if k < before.len() {
                    assert(before[k] == rule);
                }
            }
        }
    } else {
        assert(!enabled_rules(rules, disabled).contains(rule));
    }
}

/// The rules of a configured checker are its own, without those that the project disables by
/// name, and all rules of the project.
pub proof fn projects_add_and_disable_rules(
    c: SpecCheckerModel,
    config: RulesConfigModel,
    rule: RuleModel,
)
    ensures
        configured(c, config).rules.contains(rule) <==> (c.rules.contains(rule)
            && !config.disable_builtin.contains(rule.name)) || config.rules.contains(rule),
        configured(c, config).spec_map == c.spec_map,
        config.layers is None ==> configured(c, config).layers == c.layers,
{
    let kept = enabled_rules(c.rules, config.disable_builtin);
    let all = kept + config.rules;
    lemma_enabled(c.rules, config.disable_builtin, rule);
    if kept.contains(rule) {
        let k = choose|k: int| 0 <= k < kept.len() && kept[k] == rule;
        assert(all[k] == rule);
    }
    if config.rules.contains(rule) {
        let k = choose|k: int| 0 <= k < config.rules.len() && config.rules[k] == rule;
        assert(all[kept.len() + k] == rule);
    }
}

/// A module is known by the path of its source: the last spec with that path is found.
pub proof fn modules_are_known_by_their_paths(
    map: Seq<(Seq<char>, ModuleSpecModel)>,
    specs: Seq<ModuleSpecModel>,
    path: Seq<char>,
    i: int,
)
    ensures
        0 <= i < specs.len() && specs[i].source_path == Some(path) && (forall|j: int|
            i < j < specs.len() ==> (#[trigger] specs[j]).source_path != Some(path)) ==> lookup(
            mapped_specs(map, specs),
            path,
        ) == Some(specs[i]),
        (forall|j: int| 0 <= j < specs.len() ==> (#[trigger] specs[j]).source_path != Some(path))
            ==> lookup(mapped_specs(map, specs), path) == lookup(map, path),
    decreases specs.len(),
{
    if specs.len() > 0 {
        let front = specs.drop_last();
        let last = specs.last();
        let before = mapped_specs(map, front);
        modules_are_known_by_their_paths(map, front, path, i);
        assert(specs[specs.len() - 1] == last);
        assert(forall|j: int| 0 <= j < front.len() ==> front[j] == #[trigger] specs[j]);
        if let Some(p) = last.source_path {
            if p == path {
                lookup_after_insert(before, p, last);
            } else {
                lookup_of_other_key(before, p, last, path);
            }
        }
    }
}

// ─── Names of modules ─────────────────────────────────────────────────────────

/// Whether a text can stand before the last name of a path.
pub open spec fn is_directory(dir: Seq<char>) -> bool {
    dir.len() == 0 || dir.last() == '/'
}

proof fn lemma_last_segment(dir: Seq<char>, name: Seq<char>)
    requires
        is_directory(dir),
        text::lacks(name, '/'),
    ensures
        last_segment(dir + name) == name,
{
    let s = dir + name;
    text::lemma_rfind_char_before(s, '/', s.len() as int);
    assert forall|j: int| dir.len() <= j < s.len() implies s[j] != '/' by {
        assert(s[j] == name[j - dir.len()]);
    }
    if dir.len() > 0 {
        assert(s[dir.len() - 1] == '/');
        assert(s.skip(dir.len() as int) =~= name);
    } else {
        assert(s =~= name);
    }
}

proof fn lemma_suffix_once(s: Seq<char>, suffix: Seq<char>)
    requires
        suffix.len() > 0,
        !text::ends_with(s, suffix),
    ensures
        text::without_suffix(s + suffix, suffix) == s,
{
    let all = s + suffix;
    assert(all.subrange(s.len() as int, all.len() as int) =~= suffix);
    assert(text::ends_with(all, suffix));
    assert(all.take(all.len() - suffix.len()) =~= s);
    reveal_with_fuel(text::without_suffix, 3);
}

/// The module of a file is called like the file, without its directory and its extension; the
/// module of a file `mod.rs` is called like its directory.
pub proof fn modules_are_called_like_their_files(dir: Seq<char>, name: Seq<char>)
    requires
        is_directory(dir),
        name.len() > 0,
        text::lacks(name, '/'),
        text::lacks(name, '.'),
        name != "mod"@,
    ensures
        module_name_of(dir + name + ".rs"@) == name,
        module_name_of(dir + name + "/mod.rs"@) == name,
{
    reveal_strlit(".rs");
    reveal_strlit("/mod");
    reveal_strlit("/mod.rs");
    reveal_strlit("mod");
    let s = dir + name;
    assert(s.last() == name.last());
    assert(name[name.len() - 1] != '.' && name[name.len() - 1] != '/');
    assert(!text::ends_with(s, ".rs"@)) by {
        if text::ends_with(s, ".rs"@) {
            let part = s.subrange(s.len() - 3, s.len() as int);
            assert(part[0] == s[s.len() - 3] && part[1] == s[s.len() - 2] && part[2] == s[s.len()
                - 1]);
            if name.len() >= 3 {
                assert(s[s.len() - 3] == name[name.len() - 3]);
            } else if name.len() == 2 {
                assert(s[s.len() - 3] == dir.last());
            } else {
                assert(s[s.len() - 2] == dir.last());
            }
        }
    }
    assert(!text::ends_with(s, "/mod"@)) by {
        if text::ends_with(s, "/mod"@) {
            let part = s.subrange(s.len() - 4, s.len() as int);
            assert(part[0] == s[s.len() - 4] && part[1] == s[s.len() - 3] && part[2] == s[s.len()
                - 2] && part[3] == s[s.len() - 1]);
            if name.len() >= 4 {
                assert(s[s.len() - 4] == name[name.len() - 4]);
            } else if name.len() == 3 {
                assert(name =~= "mod"@);
            } else if name.len() == 2 {
                assert(s[s.len() - 3] == dir.last());
            } else {
                assert(s[s.len() - 2] == dir.last());
            }
        }
    }
    lemma_suffix_once(s, ".rs"@);
    lemma_last_segment(dir, name);
    let deep = s + "/mod"@;
    assert(s + "/mod.rs"@ =~= deep + ".rs"@);
    assert(!text::ends_with(deep, ".rs"@)) by {
        if text::ends_with(deep, ".rs"@) {
            let part = deep.subrange(deep.len() - 3, deep.len() as int);
            assert(part[2] == deep[deep.len() - 1]);
        }
    }
    lemma_suffix_once(deep, ".rs"@);
    lemma_suffix_once(s, "/mod"@);
    assert(deep.subrange(s.len() as int, deep.len() as int) =~= "/mod"@);
    assert(text::ends_with(deep, "/mod"@));
}

} // verus!

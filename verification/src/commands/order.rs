//! The order of specs: each behind those that it depends on.
use vstd::prelude::*;

use crate::data::append_item;
use crate::graph;
use crate::spec::{ModuleSpec, ModuleSpecModel};
use crate::text;

verus! {

/// The last of the first `k` specs with a source path.
pub open spec fn last_with_path(specs: Seq<ModuleSpecModel>, path: Seq<char>, k: int) -> Option<int>
    decreases k,
{
    if k <= 0 || k > specs.len() {
        None
    } else if specs[k - 1].source_path == Some(path) {
        Some(k - 1)
    } else {
        last_with_path(specs, path, k - 1)
    }
}

/// The last of the first `k` specs of a module.
pub open spec fn last_of_module(specs: Seq<ModuleSpecModel>, module: Seq<char>, k: int) -> Option<
    int,
>
    decreases k,
{
    if k <= 0 || k > specs.len() {
        None
    } else if specs[k - 1].module == module {
        Some(k - 1)
    } else {
        last_of_module(specs, module, k - 1)
    }
}

/// The spec that a dependency stands for: by its source path, or else by its module.
pub open spec fn resolved_dep(specs: Seq<ModuleSpecModel>, dep: Seq<char>) -> Option<int> {
    match last_with_path(specs, dep, specs.len() as int) {
        Some(j) => Some(j),
        None => last_of_module(specs, dep, specs.len() as int),
    }
}

/// The specs that the first `k` dependencies stand for. Dependencies without a spec are
/// skipped.
pub open spec fn resolved_deps(
    specs: Seq<ModuleSpecModel>,
    deps: Seq<Seq<char>>,
    k: int,
) -> Seq<usize>
    decreases k,
{
    if k <= 0 || k > deps.len() {
        Seq::empty()
    } else {
        match resolved_dep(specs, deps[k - 1]) {
            Some(j) => resolved_deps(specs, deps, k - 1).push(j as usize),
            None => resolved_deps(specs, deps, k - 1),
        }
    }
}

/// The graph of specs: an edge leads from each to those that it depends on.
pub open spec fn spec_edges(specs: Seq<ModuleSpecModel>) -> Seq<Seq<usize>> {
    Seq::new(
        specs.len(),
        |i: int| resolved_deps(specs, specs[i].depends_on, specs[i].depends_on.len() as int),
    )
}

/// The order of specs: each behind those that it depends on. Where specs depend on each other
/// in a cycle, these and those that they depend on come first.
pub open spec fn spec_order(specs: Seq<ModuleSpecModel>) -> Seq<usize> {
    let edges = spec_edges(specs);
    (graph::sorted_nodes(edges) + graph::cyclic_nodes(edges)).reverse()
}

/// The modules that could not be sorted.
pub open spec fn cyclic_modules(specs: Seq<ModuleSpecModel>) -> Seq<Seq<char>> {
    graph::cyclic_nodes(spec_edges(specs)).map_values(|i: usize| specs[i as int].module)
}

/// What a spec is listed as: its source path, or else its module.
pub open spec fn spec_label(spec: ModuleSpecModel) -> Seq<char> {
    match spec.source_path {
        Some(p) => p,
        None => spec.module,
    }
}

proof fn lemma_resolved(specs: Seq<ModuleSpecModel>, dep: Seq<char>, k: int)
    requires
        0 <= k <= specs.len(),
    ensures
        last_with_path(specs, dep, k) matches Some(j) ==> 0 <= j < k,
        last_of_module(specs, dep, k) matches Some(j) ==> 0 <= j < k,
    decreases k,
{
    if k > 0 {
        lemma_resolved(specs, dep, k - 1);
    }
}

proof fn lemma_resolved_deps(specs: Seq<ModuleSpecModel>, deps: Seq<Seq<char>>, k: int)
    requires
        specs.len() <= usize::MAX,
    ensures
        forall|p: int|
            0 <= p < resolved_deps(specs, deps, k).len() ==> (#[trigger] resolved_deps(
                specs,
                deps,
                k,
            )[p]) < specs.len(),
    decreases k,
{
    if 0 < k <= deps.len() {
        lemma_resolved_deps(specs, deps, k - 1);
        lemma_resolved(specs, deps[k - 1], specs.len() as int);
        let before = resolved_deps(specs, deps, k - 1);
        let now = resolved_deps(specs, deps, k);
        assert forall|p: int| 0 <= p < now.len() implies (#[trigger] now[p]) < specs.len() by {
            if p < before.len() {
                assert(now[p] == before[p]);
            }
        }
    }
}

proof fn lemma_spec_edges(specs: Seq<ModuleSpecModel>)
    requires
        specs.len() <= usize::MAX,
    ensures
        graph::is_graph(spec_edges(specs)),
{
    let edges = spec_edges(specs);
    assert forall|i: int, k: int| 0 <= i < edges.len() && 0 <= k < edges[i].len() implies (
    #[trigger] edges[i][k]) < edges.len() by {
        lemma_resolved_deps(specs, specs[i].depends_on, specs[i].depends_on.len() as int);
    }
}

fn find_with_path(specs: &[ModuleSpec], path: &str) -> (r: Option<usize>)
    ensures
        match r {
            Some(j) => last_with_path(specs.deep_view(), path@, specs@.len() as int) == Some(
                j as int,
            ),
            None => last_with_path(specs.deep_view(), path@, specs@.len() as int) is None,
        },
{
    let ghost all = specs.deep_view();
    let mut k: usize = specs.len();
    while k > 0
        invariant
            k <= specs@.len(),
            all == specs.deep_view(),
            last_with_path(all, path@, specs@.len() as int) == last_with_path(
                all,
                path@,
                k as int,
            ),
        decreases k,
    {
        assert(all[k - 1] == specs@[k - 1].deep_view());
        match &specs[k - 1].source_path {
            Some(p) => {
                if text::same(p.as_str(), path) {
                    return Some(k - 1);
                }
            },
            None => {},
        }
        k -= 1;
    }
    None
}

fn find_of_module(specs: &[ModuleSpec], module: &str) -> (r: Option<usize>)
    ensures
        match r {
            Some(j) => last_of_module(specs.deep_view(), module@, specs@.len() as int) == Some(
                j as int,
            ),
            None => last_of_module(specs.deep_view(), module@, specs@.len() as int) is None,
        },
{
    let ghost all = specs.deep_view();
    let mut k: usize = specs.len();
    while k > 0
        invariant
            k <= specs@.len(),
            all == specs.deep_view(),
            last_of_module(all, module@, specs@.len() as int) == last_of_module(
                all,
                module@,
                k as int,
            ),
        decreases k,
    {
        assert(all[k - 1] == specs@[k - 1].deep_view());
        if text::same(specs[k - 1].module.as_str(), module) {
            return Some(k - 1);
        }
        k -= 1;
    }
    None
}

fn list_edges(specs: &[ModuleSpec]) -> (r: Vec<Vec<usize>>)
    ensures
        r.deep_view() == spec_edges(specs.deep_view()),
{
    let ghost all = specs.deep_view();
    let mut edges: Vec<Vec<usize>> = Vec::new();
    let mut i: usize = 0;
    assert(edges.deep_view() =~= spec_edges(all).take(0));
    while i < specs.len()
        invariant
            i <= specs@.len(),
            all == specs.deep_view(),
            edges.deep_view() == spec_edges(all).take(i as int),
        decreases specs@.len() - i,
    {
        let deps = &specs[i].depends_on;
        assert(all[i as int] == specs@[i as int].deep_view());
        let mut found: Vec<usize> = Vec::new();
        let mut k: usize = 0;
        assert(found.deep_view() =~= Seq::empty());
        while k < deps.len()
            invariant
                k <= deps@.len(),
                all == specs.deep_view(),
                found.deep_view() == resolved_deps(all, deps.deep_view(), k as int),
            decreases deps@.len() - k,
        {
            assert(deps.deep_view()[k as int] == deps@[k as int]@);
            let dep = deps[k].as_str();
            match find_with_path(specs, dep) {
                Some(j) => append_item(&mut found, j),
                None => match find_of_module(specs, dep) {
                    Some(j) => append_item(&mut found, j),
                    None => {},
                },
            }
            k += 1;
        }
        append_item(&mut edges, found);
        assert(spec_edges(all).take(i + 1) =~= spec_edges(all).take(i as int).push(
            spec_edges(all)[i as int],
        ));
        i += 1;
    }
    assert(spec_edges(all).take(all.len() as int) =~= spec_edges(all));
    edges
}

/// Sorts specs so that each comes behind those that it depends on. Gives their positions in
/// the list, and the modules that could not be sorted.
pub fn toposort_specs(specs: &[ModuleSpec]) -> (r: (Vec<usize>, Vec<String>))
    ensures
        r.0@ == spec_order(specs.deep_view()),
        r.1.deep_view() == cyclic_modules(specs.deep_view()),
{
    let ghost all = specs.deep_view();
    let edges = list_edges(specs);
    let n: usize = specs.len();
    proof {
        lemma_spec_edges(all);
        graph::sorted_and_cyclic_are_all(spec_edges(all));
    }
    let (sorted, cyclic) = graph::sort_nodes(&edges);
    let ghost whole = sorted@ + cyclic@;
    let mut modules: Vec<String> = Vec::new();
    let mut c: usize = 0;
    assert(modules.deep_view() =~= cyclic_modules(all).take(0));
    while c < cyclic.len()
        invariant
            c <= cyclic@.len(),
            n == specs@.len(),
            all == specs.deep_view(),
            whole == sorted@ + cyclic@,
            graph::distinct_nodes(whole, n as nat),
            cyclic@ == graph::cyclic_nodes(spec_edges(all)),
            modules.deep_view() == cyclic_modules(all).take(c as int),
        decreases cyclic@.len() - c,
    {
        let node: usize = cyclic[c];
        assert(whole[sorted@.len() + c] == node);
        assert(all[node as int] == specs@[node as int].deep_view());
        append_item(&mut modules, specs[node].module.clone());
        assert(cyclic_modules(all).take(c + 1) =~= cyclic_modules(all).take(c as int).push(
            all[node as int].module,
        ));
        c += 1;
    }
    assert(cyclic_modules(all).take(cyclic@.len() as int) =~= cyclic_modules(all));
    let mut forward = sorted;
    let mut rest = cyclic;
    forward.append(&mut rest);
    assert(forward@ =~= whole);
    let mut order: Vec<usize> = Vec::new();
    let mut p: usize = forward.len();
    assert(order@ =~= whole.reverse().take(0));
    while p > 0
        invariant
            p <= forward@.len(),
            forward@ == whole,
            order@ == whole.reverse().take(whole.len() - p),
        decreases p,
    {
        order.push(forward[p - 1]);
        assert(whole.reverse().take(whole.len() - p + 1) =~= whole.reverse().take(
            whole.len() - p,
        ).push(whole[p - 1]));
        p -= 1;
    }
    assert(whole.reverse().take(whole.len() as int) =~= whole.reverse());
    (order, modules)
}

/// What a spec is listed as.
pub fn label(spec: &ModuleSpec) -> (r: &str)
    ensures
        r@ == spec_label(spec.deep_view()),
{
    match &spec.source_path {
        Some(p) => p.as_str(),
        None => spec.module.as_str(),
    }
}

// ─── Laws ─────────────────────────────────────────────────────────────────────

/// Every spec is in the order exactly once.
pub proof fn all_specs_are_ordered(specs: Seq<ModuleSpecModel>)
    requires
        specs.len() <= usize::MAX,
    ensures
        spec_order(specs).len() == specs.len(),
        graph::distinct_nodes(spec_order(specs), specs.len()),
{
    lemma_spec_edges(specs);
    graph::sorted_and_cyclic_are_all(spec_edges(specs));
}

/// Whether a spec depends on another.
pub open spec fn depends_on(specs: Seq<ModuleSpecModel>, i: int, j: int) -> bool {
    exists|k: int|
        0 <= k < specs[i].depends_on.len() && resolved_dep(
            specs,
            #[trigger] specs[i].depends_on[k],
        ) == Some(j)
}

proof fn lemma_edge(specs: Seq<ModuleSpecModel>, deps: Seq<Seq<char>>, n: int, k: int, j: int)
    requires
        0 <= k < n <= deps.len(),
        specs.len() <= usize::MAX,
        resolved_dep(specs, deps[k]) == Some(j),
    ensures
        graph::count(resolved_deps(specs, deps, n), j) > 0,
    decreases n,
{
    let now = resolved_deps(specs, deps, n);
    let before = resolved_deps(specs, deps, n - 1);
    lemma_resolved(specs, deps[n - 1], specs.len() as int);
    if k < n - 1 {
        lemma_edge(specs, deps, n - 1, k, j);
        if now != before {
            assert(now.drop_last() =~= before);
        }
    } else {
        assert(now.last() == j as usize);
    }
}

/// Where no specs depend on each other in a cycle, each comes behind those that it depends on.
pub proof fn dependencies_come_first(specs: Seq<ModuleSpecModel>, p: int, j: int)
    requires
        specs.len() <= usize::MAX,
        graph::acyclic(spec_edges(specs)),
        0 <= p < spec_order(specs).len(),
        depends_on(specs, spec_order(specs)[p] as int, j),
    ensures
        exists|q: int| 0 <= q < p && #[trigger] spec_order(specs)[q] == j,
{
    let edges = spec_edges(specs);
    let sorted = graph::sorted_nodes(edges);
    let order = spec_order(specs);
    let n = specs.len() as int;
    lemma_spec_edges(specs);
    graph::all_sorted_if_acyclic(edges);
    graph::sorted_and_cyclic_are_all(edges);
    assert(sorted + graph::cyclic_nodes(edges) =~= sorted);
    let i = order[p] as int;
    assert(sorted[n - 1 - p] == i);
    let deps = specs[i].depends_on;
    let k = choose|k: int|
        0 <= k < deps.len() && resolved_dep(specs, #[trigger] deps[k]) == Some(j);
    lemma_resolved(specs, deps[k], n);
    lemma_edge(specs, deps, deps.len() as int, k, j);
    assert(graph::has_edge(edges, i, j));
    graph::nodes_are_sorted_or_cyclic(edges, j as usize);
    let q = choose|q: int| 0 <= q < sorted.len() && sorted[q] == j as usize;
    assert(graph::has_edge(edges, i, sorted[q] as int));
    graph::sources_come_first(edges, i, q);
    let s = choose|s: int| 0 <= s < q && #[trigger] sorted[s] == i;
    assert(s == n - 1 - p);
    assert(order[n - 1 - q] == j);
}

} // verus!

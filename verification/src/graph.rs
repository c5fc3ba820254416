//! Sorting a graph topologically, by taking away nodes that no edge leads to.
use vstd::prelude::*;

verus! {

// ─── The sort ─────────────────────────────────────────────────────────────────

/// Whether every edge of a graph leads to one of its nodes. `edges[i]` lists the nodes that
/// edges from node `i` lead to.
pub open spec fn is_graph(edges: Seq<Seq<usize>>) -> bool {
    forall|i: int, k: int|
        0 <= i < edges.len() && 0 <= k < edges[i].len() ==> (#[trigger] edges[i][k])
            < edges.len()
}

/// How often a node is listed.
pub open spec fn count(list: Seq<usize>, j: int) -> nat
    decreases list.len(),
{
    if list.len() == 0 {
        0
    } else {
        count(list.drop_last(), j) + (if list.last() == j {
            1nat
        } else {
            0nat
        })
    }
}

/// How many edges from the first `k` nodes lead to a node.
pub open spec fn in_degree(edges: Seq<Seq<usize>>, j: int, k: int) -> nat
    decreases k,
{
    if k <= 0 || k > edges.len() {
        0
    } else {
        in_degree(edges, j, k - 1) + count(edges[k - 1], j)
    }
}

pub open spec fn in_degrees(edges: Seq<Seq<usize>>, k: int) -> Seq<nat> {
    Seq::new(edges.len(), |j: int| in_degree(edges, j, k))
}

/// The first `k` nodes that no edge leads to.
pub open spec fn free_nodes(degrees: Seq<nat>, k: int) -> Seq<usize>
    decreases k,
{
    if k <= 0 || k > degrees.len() {
        Seq::empty()
    } else if degrees[k - 1] == 0 {
        free_nodes(degrees, k - 1).push((k - 1) as usize)
    } else {
        free_nodes(degrees, k - 1)
    }
}

/// The first `k` nodes that edges lead to.
pub open spec fn bound_nodes(degrees: Seq<nat>, k: int) -> Seq<usize>
    decreases k,
{
    if k <= 0 || k > degrees.len() {
        Seq::empty()
    } else if degrees[k - 1] > 0 {
        bound_nodes(degrees, k - 1).push((k - 1) as usize)
    } else {
        bound_nodes(degrees, k - 1)
    }
}

/// How many edges lead to each node, and the nodes that were found, when the first `k` of the
/// edges to these targets are taken away.
pub open spec fn release(
    degrees: Seq<nat>,
    found: Seq<usize>,
    targets: Seq<usize>,
    k: int,
) -> (Seq<nat>, Seq<usize>)
    decreases k,
{
    if k <= 0 || k > targets.len() {
        (degrees, found)
    } else {
        let (d, f) = release(degrees, found, targets, k - 1);
        let j = targets[k - 1];
        let left = (d[j as int] - 1) as nat;
        (
            d.update(j as int, left),
            if left == 0 {
                f.push(j)
            } else {
                f
            },
        )
    }
}

/// The nodes that are found from here on, when the first `taken` of those found are taken away
/// already, and how many edges then lead to each node.
pub open spec fn take_away(
    edges: Seq<Seq<usize>>,
    degrees: Seq<nat>,
    found: Seq<usize>,
    taken: int,
) -> (Seq<usize>, Seq<nat>)
    decreases edges.len() - taken,
{
    if taken < 0 || taken >= found.len() || taken >= edges.len() {
        (found, degrees)
    } else {
        let targets = edges[found[taken] as int];
        let (d, f) = release(degrees, found, targets, targets.len() as int);
        take_away(edges, d, f, taken + 1)
    }
}

/// The nodes in the order in which they are taken away, and how many edges are left to each
/// node in the end. A node is taken away when no edge leads to it; nodes on a cycle, and those
/// that a cycle leads to, stay.
pub open spec fn sorting(edges: Seq<Seq<usize>>) -> (Seq<usize>, Seq<nat>) {
    let degrees = in_degrees(edges, edges.len() as int);
    take_away(edges, degrees, free_nodes(degrees, degrees.len() as int), 0)
}

/// The nodes that can be sorted, each before those that its edges lead to.
pub open spec fn sorted_nodes(edges: Seq<Seq<usize>>) -> Seq<usize> {
    sorting(edges).0
}

/// The nodes that cannot be sorted.
pub open spec fn cyclic_nodes(edges: Seq<Seq<usize>>) -> Seq<usize> {
    bound_nodes(sorting(edges).1, sorting(edges).1.len() as int)
}

// ─── What holds while sorting ─────────────────────────────────────────────────

/// How many edges lead to a node from those of the first `k` nodes that are not among those
/// taken away.
pub open spec fn edges_left(edges: Seq<Seq<usize>>, taken: Seq<usize>, j: int, k: int) -> nat
    decreases k,
{
    if k <= 0 || k > edges.len() {
        0
    } else {
        edges_left(edges, taken, j, k - 1) + (if taken.contains((k - 1) as usize) {
            0
        } else {
            count(edges[k - 1], j)
        })
    }
}

/// Whether a row of nodes of a graph repeats none.
pub open spec fn distinct_nodes(nodes: Seq<usize>, n: nat) -> bool {
    &&& forall|p: int| 0 <= p < nodes.len() ==> (#[trigger] nodes[p]) < n
    &&& forall|p: int, q: int| 0 <= p < q < nodes.len() ==> nodes[p] != nodes[q]
}

/// Whether an edge leads from a node to another.
pub open spec fn has_edge(edges: Seq<Seq<usize>>, i: int, j: int) -> bool {
    0 <= i < edges.len() && count(edges[i], j) > 0
}

/// Whether each node of a row stands behind those from which edges lead to it, and these are
/// among the first `taken`.
pub open spec fn sorted_so_far(edges: Seq<Seq<usize>>, found: Seq<usize>, taken: int) -> bool {
    forall|i: int, p: int|
        0 <= p < found.len() && #[trigger] has_edge(edges, i, found[p] as int) ==> exists|q: int|
            0 <= q < p && q < taken && #[trigger] found[q] == i
}

/// What holds between two nodes that are taken away.
pub open spec fn sorting_state(
    edges: Seq<Seq<usize>>,
    degrees: Seq<nat>,
    found: Seq<usize>,
    taken: int,
) -> bool {
    let n = edges.len();
    &&& degrees.len() == n
    &&& 0 <= taken <= found.len()
    &&& distinct_nodes(found, n)
    &&& forall|j: int|
        0 <= j < n ==> #[trigger] degrees[j] == edges_left(edges, found.take(taken), j, n as int)
    &&& forall|j: int|
        0 <= j < n ==> (#[trigger] degrees[j] == 0 <==> found.contains(j as usize))
    &&& sorted_so_far(edges, found, taken)
}

proof fn lemma_distinct_len(nodes: Seq<usize>, n: nat)
    requires
        distinct_nodes(nodes, n),
    ensures
        nodes.len() <= n,
{
    let all = nodes.map_values(|x: usize| x as int);
    assert(all.no_duplicates());
    all.unique_seq_to_set();
    let range = vstd::set_lib::set_int_range(0, n as int);
    vstd::set_lib::lemma_int_range(0, n as int);
    assert(all.to_set().subset_of(range)) by {
        assert forall|x: int| all.to_set().contains(x) implies range.contains(x) by {
            let p = choose|p: int| 0 <= p < all.len() && all[p] == x;
            assert(all[p] == nodes[p] as int);
        }
    }
    vstd::set_lib::lemma_len_subset(all.to_set(), range);
}

proof fn lemma_count_first(list: Seq<usize>, k: int, j: int)
    requires
        0 <= k < list.len(),
    ensures
        count(list.skip(k), j) == count(list.skip(k + 1), j) + (if list[k] == j {
            1nat
        } else {
            0nat
        }),
    decreases list.len() - k,
{
    let rest = list.skip(k);
    let less = list.skip(k + 1);
    if k + 1 < list.len() {
        let front = list.drop_last();
        lemma_count_first(front, k, j);
        assert(rest.drop_last() =~= front.skip(k));
        assert(less.drop_last() =~= front.skip(k + 1));
        assert(rest.last() == list.last() && less.last() == list.last());
    } else {
        assert(rest.drop_last() =~= Seq::empty());
        assert(less =~= Seq::empty());
        reveal_with_fuel(count, 2);
    }
}

pub proof fn lemma_counted(list: Seq<usize>, j: int)
    ensures
        count(list, j) > 0 <==> exists|k: int| 0 <= k < list.len() && #[trigger] list[k] == j,
    decreases list.len(),
{
    if list.len() > 0 {
        let front = list.drop_last();
        lemma_counted(front, j);
        if count(front, j) > 0 {
            let k = choose|k: int| 0 <= k < front.len() && #[trigger] front[k] == j;
            assert(list[k] == j);
        }
        if list.last() == j {
            assert(list[list.len() - 1] == j);
        }
        if exists|k: int| 0 <= k < list.len() && #[trigger] list[k] == j {
            let k = choose|k: int| 0 <= k < list.len() && #[trigger] list[k] == j;
            if k < front.len() {
                assert(front[k] == j);
            }
        }
    }
}

/// One more node is taken away, and its edges with it.
proof fn lemma_left_step(edges: Seq<Seq<usize>>, taken: Seq<usize>, i: usize, j: int, k: int)
    requires
        !taken.contains(i),
        i < edges.len(),
        0 <= k <= edges.len() <= usize::MAX,
    ensures
        edges_left(edges, taken, j, k) == edges_left(edges, taken.push(i), j, k) + (if i < k {
            count(edges[i as int], j)
        } else {
            0
        }),
    decreases k,
{
    if k > 0 {
        lemma_left_step(edges, taken, i, j, k - 1);
        let node = (k - 1) as usize;
        let more = taken.push(i);
        if node == i {
            assert(more[taken.len() as int] == i);
            assert(more.contains(node));
        } else if taken.contains(node) {
            let p = choose|p: int| 0 <= p < taken.len() && taken[p] == node;
            assert(more[p] == node);
            assert(more.contains(node));
        } else {
            assert(!more.contains(node));
        }
    }
}

/// Where no edge is left, all nodes from which edges lead there are taken away.
proof fn lemma_none_left(edges: Seq<Seq<usize>>, taken: Seq<usize>, j: int, k: int, i: int)
    requires
        0 <= i < k <= edges.len() <= usize::MAX,
        edges_left(edges, taken, j, k) == 0,
        has_edge(edges, i, j),
    ensures
        taken.contains(i as usize),
    decreases k,
{
    if i < k - 1 {
        lemma_none_left(edges, taken, j, k - 1, i);
    }
}

/// Where an edge is left, it leads from a node that is not taken away.
proof fn lemma_some_left(edges: Seq<Seq<usize>>, taken: Seq<usize>, j: int, k: int) -> (i: int)
    requires
        0 <= k <= edges.len() <= usize::MAX,
        edges_left(edges, taken, j, k) > 0,
    ensures
        0 <= i < k,
        has_edge(edges, i, j),
        !taken.contains(i as usize),
    decreases k,
{
    if edges_left(edges, taken, j, k - 1) > 0 {
        lemma_some_left(edges, taken, j, k - 1)
    } else {
        k - 1
    }
}

/// What holds while the edges from a node are taken away.
proof fn lemma_release(
    edges: Seq<Seq<usize>>,
    degrees: Seq<nat>,
    found: Seq<usize>,
    taken: int,
    k: int,
)
    requires
        is_graph(edges),
        edges.len() <= usize::MAX,
        sorting_state(edges, degrees, found, taken),
        taken < found.len(),
        0 <= k <= edges[found[taken] as int].len(),
    ensures
        ({
            let n = edges.len();
            let targets = edges[found[taken] as int];
            let (d, f) = release(degrees, found, targets, k);
            &&& d.len() == n
            &&& f.len() >= found.len()
            &&& f.take(found.len() as int) == found
            &&& distinct_nodes(f, n)
            &&& forall|j: int|
                0 <= j < n ==> #[trigger] d[j] == edges_left(
                    edges,
                    found.take(taken + 1),
                    j,
                    n as int,
                ) + count(targets.skip(k), j)
            &&& forall|j: int| 0 <= j < n ==> (#[trigger] d[j] == 0 <==> f.contains(j as usize))
            &&& sorted_so_far(edges, f, taken + 1)
        }),
    decreases k,
{
    let n = edges.len();
    let i = found[taken];
    let targets = edges[i as int];
    let now = found.take(taken + 1);
    if k == 0 {
        assert(found.take(found.len() as int) =~= found);
        assert(targets.skip(0) =~= targets);
        assert(now =~= found.take(taken).push(i));
        assert(!found.take(taken).contains(i));
        assert forall|j: int| 0 <= j < n implies #[trigger] degrees[j] == edges_left(
            edges,
            now,
            j,
            n as int,
        ) + count(targets.skip(0), j) by {
            lemma_left_step(edges, found.take(taken), i, j, n as int);
        }
    } else {
        lemma_release(edges, degrees, found, taken, k - 1);
        let (d, f) = release(degrees, found, targets, k - 1);
        let (d2, f2) = release(degrees, found, targets, k);
        let t = targets[k - 1];
        assert(edges[i as int][k - 1] < n);
        lemma_count_first(targets, k - 1, t as int);
        assert(d[t as int] >= 1);
        assert forall|j: int| 0 <= j < n implies #[trigger] d2[j] == edges_left(
            edges,
            now,
            j,
            n as int,
        ) + count(targets.skip(k), j) by {
            lemma_count_first(targets, k - 1, j);
            assert(d[j] == edges_left(edges, now, j, n as int) + count(targets.skip(k - 1), j));
        }
        assert(!f.contains(t)) by {
            assert(d[t as int] == 0 <==> f.contains(t as int as usize));
        }
        if d2[t as int] == 0 {
            assert(f2 == f.push(t));
            assert(f2.take(found.len() as int) =~= f.take(found.len() as int));
            assert forall|j: int| 0 <= j < n implies (#[trigger] d2[j] == 0 <==> f2.contains(
                j as usize,
            )) by {
                assert(d[j] == 0 <==> f.contains(j as usize));
                if j == t {
                    assert(f2[f.len() as int] == t);
                } else {
                    if f.contains(j as usize) {
                        let p = choose|p: int| 0 <= p < f.len() && f[p] == j as usize;
                        assert(f2[p] == j as usize);
                    }
                    if f2.contains(j as usize) {
                        let p = choose|p: int| 0 <= p < f2.len() && f2[p] == j as usize;
                        assert(f[p] == j as usize);
                    }
                }
            }
            assert(distinct_nodes(f2, n)) by {
                assert forall|p: int, q: int| 0 <= p < q < f2.len() implies f2[p] != f2[q] by {
                    if q == f.len() {
                        assert(f.contains(f[p]));
                    }
                }
            }
            assert forall|x: int, p: int|
                0 <= p < f2.len() && #[trigger] has_edge(edges, x, f2[p] as int) implies exists|
                q: int,
            | 0 <= q < p && q < taken + 1 && #[trigger] f2[q] == x by {
                if p < f.len() {
                    assert(has_edge(edges, x, f[p] as int));
                    let q = choose|q: int| 0 <= q < p && q < taken + 1 && #[trigger] f[q] == x;
                    assert(f2[q] == x);
                } else {
                    lemma_none_left(edges, now, t as int, n as int, x);
                    let q = choose|q: int| 0 <= q < now.len() && now[q] == x as usize;
                    assert(found[q] == now[q]);
                    assert(f.take(found.len() as int)[q] == found[q]);
                    assert(f2[q] == x);
                }
            }
        } else {
            assert(f2 == f);
            assert forall|j: int| 0 <= j < n implies (#[trigger] d2[j] == 0 <==> f2.contains(
                j as usize,
            )) by {
                assert(d[j] == 0 <==> f.contains(j as usize));
                if j == t {
                    assert(!f.contains(j as usize));
                }
            }
        }
    }
}

/// What holds before a node is taken away holds behind it.
proof fn lemma_step(edges: Seq<Seq<usize>>, degrees: Seq<nat>, found: Seq<usize>, taken: int)
    requires
        is_graph(edges),
        edges.len() <= usize::MAX,
        sorting_state(edges, degrees, found, taken),
        taken < found.len(),
    ensures
        ({
            let targets = edges[found[taken] as int];
            let (d, f) = release(degrees, found, targets, targets.len() as int);
            sorting_state(edges, d, f, taken + 1)
        }),
{
    let targets = edges[found[taken] as int];
    let (d, f) = release(degrees, found, targets, targets.len() as int);
    lemma_release(edges, degrees, found, taken, targets.len() as int);
    assert(targets.skip(targets.len() as int) =~= Seq::empty());
    assert(f.take(taken + 1) =~= f.take(found.len() as int).take(taken + 1));
    assert(f.take(taken + 1) == found.take(taken + 1));
}

/// The nodes that no edge leads to are found first.
proof fn lemma_start(edges: Seq<Seq<usize>>)
    requires
        is_graph(edges),
        edges.len() <= usize::MAX,
    ensures
        ({
            let degrees = in_degrees(edges, edges.len() as int);
            sorting_state(edges, degrees, free_nodes(degrees, degrees.len() as int), 0)
        }),
{
    let n = edges.len();
    let degrees = in_degrees(edges, n as int);
    let found = free_nodes(degrees, n as int);
    lemma_free_nodes(degrees, n as int);
    assert(found.take(0) =~= Seq::empty());
    assert forall|j: int| 0 <= j < n implies #[trigger] degrees[j] == edges_left(
        edges,
        found.take(0),
        j,
        n as int,
    ) by {
        lemma_all_left(edges, j, n as int);
    }
    assert forall|i: int, p: int|
        0 <= p < found.len() && #[trigger] has_edge(edges, i, found[p] as int) implies exists|
        q: int,
    | 0 <= q < p && q < 0 && #[trigger] found[q] == i by {
        let j = found[p] as int;
        assert(found.contains(j as usize));
        assert(degrees[j] == 0);
        lemma_none_left(edges, found.take(0), j, n as int, i);
    }
}

proof fn lemma_all_left(edges: Seq<Seq<usize>>, j: int, k: int)
    ensures
        in_degree(edges, j, k) == edges_left(edges, Seq::empty(), j, k),
    decreases k,
{
    if 0 < k <= edges.len() {
        lemma_all_left(edges, j, k - 1);
    }
}

proof fn lemma_free_nodes(degrees: Seq<nat>, k: int)
    requires
        0 <= k <= degrees.len() <= usize::MAX,
    ensures
        distinct_nodes(free_nodes(degrees, k), k as nat),
        forall|j: int|
            0 <= j < k ==> (#[trigger] degrees[j] == 0 <==> free_nodes(degrees, k).contains(
                j as usize,
            )),
    decreases k,
{
    if k > 0 {
        lemma_free_nodes(degrees, k - 1);
        let before = free_nodes(degrees, k - 1);
        let now = free_nodes(degrees, k);
        assert forall|j: int| 0 <= j < k implies (#[trigger] degrees[j] == 0 <==> now.contains(
            j as usize,
        )) by {
            if j < k - 1 {
                assert(degrees[j] == 0 <==> before.contains(j as usize));
                if before.contains(j as usize) {
                    let p = choose|p: int| 0 <= p < before.len() && before[p] == j as usize;
                    assert(now[p] == j as usize);
                }
                if now.contains(j as usize) {
                    let p = choose|p: int| 0 <= p < now.len() && now[p] == j as usize;
                    assert(before[p] == j as usize);
                }
            } else if degrees[j] == 0 {
                assert(now[before.len() as int] == j as usize);
            }
        }
    }
}

/// What holds when no node is left to take away.
proof fn lemma_take_away(edges: Seq<Seq<usize>>, degrees: Seq<nat>, found: Seq<usize>, taken: int)
    requires
        is_graph(edges),
        edges.len() <= usize::MAX,
        sorting_state(edges, degrees, found, taken),
    ensures
        ({
            let (f, d) = take_away(edges, degrees, found, taken);
            sorting_state(edges, d, f, f.len() as int)
        }),
    decreases edges.len() - taken,
{
    lemma_distinct_len(found, edges.len());
    if taken < found.len() {
        lemma_step(edges, degrees, found, taken);
        let targets = edges[found[taken] as int];
        let (d, f) = release(degrees, found, targets, targets.len() as int);
        lemma_take_away(edges, d, f, taken + 1);
    }
}

pub proof fn lemma_sorting(edges: Seq<Seq<usize>>)
    requires
        is_graph(edges),
        edges.len() <= usize::MAX,
    ensures
        sorting_state(
            edges,
            sorting(edges).1,
            sorting(edges).0,
            sorting(edges).0.len() as int,
        ),
{
    lemma_start(edges);
    let degrees = in_degrees(edges, edges.len() as int);
    lemma_take_away(edges, degrees, free_nodes(degrees, degrees.len() as int), 0);
}

// ─── Sorting ──────────────────────────────────────────────────────────────────

/// Numbers of edges as mathematical ones.
pub open spec fn numbers(degrees: Seq<u128>) -> Seq<nat> {
    degrees.map_values(|d: u128| d as nat)
}

proof fn lemma_count_bound(list: Seq<usize>, j: int)
    ensures
        count(list, j) <= list.len(),
    decreases list.len(),
{
    if list.len() > 0 {
        lemma_count_bound(list.drop_last(), j);
    }
}

proof fn lemma_degree_bound(edges: Seq<Seq<usize>>, j: int, k: int)
    requires
        0 <= k <= edges.len(),
        forall|i: int| 0 <= i < edges.len() ==> (#[trigger] edges[i]).len() <= usize::MAX,
    ensures
        in_degree(edges, j, k) <= k * usize::MAX,
    decreases k,
{
    if k > 0 {
        lemma_degree_bound(edges, j, k - 1);
        lemma_count_bound(edges[k - 1], j);
        assert(k * usize::MAX == (k - 1) * usize::MAX + usize::MAX) by (nonlinear_arith);
    }
}

/// Counts the edges that lead to each node.
fn count_edges(edges: &Vec<Vec<usize>>) -> (r: Vec<u128>)
    requires
        is_graph(edges.deep_view()),
    ensures
        numbers(r@) == in_degrees(edges.deep_view(), edges@.len() as int),
{
    let n: usize = edges.len();
    let ghost model = edges.deep_view();
    let mut degrees: Vec<u128> = Vec::new();
    let mut i: usize = 0;
    while i < n
        invariant
            i <= n,
            degrees@.len() == i,
            forall|j: int| 0 <= j < i ==> degrees@[j] == 0,
        decreases n - i,
    {
        degrees.push(0);
        i += 1;
    }
    i = 0;
    while i < n
        invariant
            i <= n == edges@.len(),
            model == edges.deep_view(),
            is_graph(model),
            degrees@.len() == n,
            forall|j: int| 0 <= j < n ==> #[trigger] degrees@[j] == in_degree(model, j, i as int),
        decreases n - i,
    {
        let targets = &edges[i];
        let length: usize = targets.len();
        assert(model[i as int] == targets.deep_view());
        let mut t: usize = 0;
        assert(targets.deep_view().take(0) =~= Seq::empty());
        while t < length
            invariant
                i < n == edges@.len(),
                t <= length == targets@.len(),
                model == edges.deep_view(),
                is_graph(model),
                model[i as int] == targets.deep_view(),
                degrees@.len() == n,
                forall|j: int|
                    0 <= j < n ==> #[trigger] degrees@[j] == in_degree(model, j, i as int) + count(
                        targets.deep_view().take(t as int),
                        j,
                    ),
            decreases length - t,
        {
            let j: usize = targets[t];
            assert(model[i as int][t as int] == j);
            proof {
                assert forall|x: int| 0 <= x < edges@.len() implies (#[trigger] model[x]).len()
                    <= usize::MAX by {
                    assert(model[x] == edges@[x].deep_view());
                    lemma_vec_len(&edges@[x]);
                }
                lemma_degree_bound(model, j as int, i as int);
                lemma_count_bound(targets.deep_view().take(t as int), j as int);
                assert(i * usize::MAX + usize::MAX < 0x1_0000_0000_0000_0000_0000_0000_0000_0000)
                    by (nonlinear_arith)
                    requires
                        0 <= i < usize::MAX,
                        usize::MAX <= 0xffff_ffff_ffff_ffff,
                ;
            }
            let more: u128 = degrees[j] + 1;
            degrees.set(j, more);
            let ghost longer = targets.deep_view().take(t + 1);
            assert(longer.drop_last() =~= targets.deep_view().take(t as int));
            t += 1;
        }
        assert(targets.deep_view().take(length as int) =~= targets.deep_view());
        i += 1;
    }
    assert(numbers(degrees@) =~= in_degrees(model, n as int));
    degrees
}

proof fn lemma_vec_len(v: &Vec<usize>)
    ensures
        v.deep_view().len() <= usize::MAX,
{
    assert(v.len() == v@.len());
}

/// Lists the nodes that no edge leads to, or those that edges lead to.
fn list_nodes(degrees: &Vec<u128>, free: bool) -> (r: Vec<usize>)
    ensures
        r@ == (if free {
            free_nodes(numbers(degrees@), degrees@.len() as int)
        } else {
            bound_nodes(numbers(degrees@), degrees@.len() as int)
        }),
{
    let mut nodes: Vec<usize> = Vec::new();
    let mut i: usize = 0;
    while i < degrees.len()
        invariant
            i <= degrees@.len(),
            nodes@ == (if free {
                free_nodes(numbers(degrees@), i as int)
            } else {
                bound_nodes(numbers(degrees@), i as int)
            }),
        decreases degrees@.len() - i,
    {
        if (degrees[i] == 0) == free {
            nodes.push(i);
        }
        i += 1;
    }
    nodes
}

/// Sorts a graph topologically. Gives the nodes that can be sorted, each before those that its
/// edges lead to, and then the others.
pub fn sort_nodes(edges: &Vec<Vec<usize>>) -> (r: (Vec<usize>, Vec<usize>))
    requires
        is_graph(edges.deep_view()),
    ensures
        r.0@ == sorted_nodes(edges.deep_view()),
        r.1@ == cyclic_nodes(edges.deep_view()),
{
    let n: usize = edges.len();
    let ghost model = edges.deep_view();
    let mut degrees = count_edges(edges);
    let mut found = list_nodes(&degrees, true);
    let mut taken: usize = 0;
    proof {
        lemma_start(model);
        lemma_distinct_len(found@, model.len());
    }
    while taken < found.len()
        invariant
            taken <= found@.len() <= n == edges@.len(),
            model == edges.deep_view(),
            is_graph(model),
            sorting_state(model, numbers(degrees@), found@, taken as int),
            sorting(model) == take_away(model, numbers(degrees@), found@, taken as int),
        decreases n - taken,
    {
        let node: usize = found[taken];
        let ghost start = numbers(degrees@);
        let ghost known = found@;
        let targets = &edges[node];
        let length: usize = targets.len();
        assert(model[node as int] == targets.deep_view());
        let mut t: usize = 0;
        while t < length
            invariant
                taken < known.len(),
                node == known[taken as int],
                node < n == edges@.len(),
                t <= length == targets@.len(),
                model == edges.deep_view(),
                is_graph(model),
                model[node as int] == targets.deep_view(),
                degrees@.len() == n,
                sorting_state(model, start, known, taken as int),
                (numbers(degrees@), found@) == release(
                    start,
                    known,
                    targets.deep_view(),
                    t as int,
                ),
            decreases length - t,
        {
            let j: usize = targets[t];
            assert(model[node as int][t as int] == j);
            let ghost before = numbers(degrees@);
            proof {
                lemma_release(model, start, known, taken as int, t as int);
                lemma_count_first(targets.deep_view(), t as int, j as int);
                assert(before[j as int] >= 1);
            }
            let left: u128 = degrees[j] - 1;
            degrees.set(j, left);
            assert(numbers(degrees@) =~= before.update(j as int, left as nat));
            if left == 0 {
                found.push(j);
            }
            t += 1;
        }
        proof {
            lemma_step(model, start, known, taken as int);
            lemma_distinct_len(found@, model.len());
        }
        taken += 1;
    }
    let cyclic = list_nodes(&degrees, false);
    (found, cyclic)
}

// ─── Laws ─────────────────────────────────────────────────────────────────────

/// No node is sorted twice.
pub proof fn sorted_nodes_are_distinct(edges: Seq<Seq<usize>>)
    requires
        is_graph(edges),
        edges.len() <= usize::MAX,
    ensures
        distinct_nodes(sorted_nodes(edges), edges.len()),
{
    lemma_sorting(edges);
}

/// Each sorted node stands behind all nodes from which edges lead to it.
pub proof fn sources_come_first(edges: Seq<Seq<usize>>, i: int, p: int)
    requires
        is_graph(edges),
        edges.len() <= usize::MAX,
        0 <= p < sorted_nodes(edges).len(),
        has_edge(edges, i, sorted_nodes(edges)[p] as int),
    ensures
        exists|q: int| 0 <= q < p && #[trigger] sorted_nodes(edges)[q] == i,
{
    lemma_sorting(edges);
    let q = choose|q: int|
        0 <= q < p && q < sorted_nodes(edges).len() && #[trigger] sorted_nodes(edges)[q] == i;
    assert(sorted_nodes(edges)[q] == i);
}

/// Every node is either sorted or cyclic.
pub proof fn nodes_are_sorted_or_cyclic(edges: Seq<Seq<usize>>, j: usize)
    requires
        is_graph(edges),
        edges.len() <= usize::MAX,
        j < edges.len(),
    ensures
        sorted_nodes(edges).contains(j) <==> !cyclic_nodes(edges).contains(j),
{
    lemma_sorting(edges);
    let degrees = sorting(edges).1;
    lemma_bound_nodes(degrees, degrees.len() as int);
    assert(degrees[j as int] == 0 <==> sorted_nodes(edges).contains(j as int as usize));
    assert(degrees[j as int] > 0 <==> cyclic_nodes(edges).contains(j as int as usize));
}

/// There are as many nodes as sorted and cyclic ones.
pub proof fn sorted_and_cyclic_are_all(edges: Seq<Seq<usize>>)
    requires
        is_graph(edges),
        edges.len() <= usize::MAX,
    ensures
        sorted_nodes(edges).len() + cyclic_nodes(edges).len() == edges.len(),
        distinct_nodes(sorted_nodes(edges) + cyclic_nodes(edges), edges.len()),
{
    lemma_sorting(edges);
    let n = edges.len();
    let degrees = sorting(edges).1;
    let sorted = sorted_nodes(edges);
    let cyclic = cyclic_nodes(edges);
    lemma_bound_nodes(degrees, n as int);
    let all = sorted + cyclic;
    assert forall|p: int, q: int| 0 <= p < q < all.len() implies all[p] != all[q] by {
        if p < sorted.len() && q >= sorted.len() {
            assert(sorted.contains(all[p]));
            assert(all[q] == cyclic[q - sorted.len()]);
            assert(cyclic.contains(all[q]));
            nodes_are_sorted_or_cyclic(edges, all[p]);
        }
    }
    assert forall|p: int| 0 <= p < all.len() implies (#[trigger] all[p]) < n by {
        if p >= sorted.len() {
            assert(all[p] == cyclic[p - sorted.len()]);
        }
    }
    lemma_distinct_len(all, n);
    let values = all.map_values(|x: usize| x as int);
    assert(values.no_duplicates());
    values.unique_seq_to_set();
    let range = vstd::set_lib::set_int_range(0, n as int);
    vstd::set_lib::lemma_int_range(0, n as int);
    assert(range.subset_of(values.to_set())) by {
        assert forall|x: int| range.contains(x) implies values.to_set().contains(x) by {
            nodes_are_sorted_or_cyclic(edges, x as usize);
            if sorted.contains(x as usize) {
                let p = choose|p: int| 0 <= p < sorted.len() && sorted[p] == x as usize;
                assert(values[p] == x);
            } else {
                let p = choose|p: int| 0 <= p < cyclic.len() && cyclic[p] == x as usize;
                assert(all[sorted.len() + p] == x as usize);
                assert(values[sorted.len() + p] == x);
            }
        }
    }
    vstd::set_lib::lemma_len_subset(range, values.to_set());
}

proof fn lemma_bound_nodes(degrees: Seq<nat>, k: int)
    requires
        0 <= k <= degrees.len() <= usize::MAX,
    ensures
        distinct_nodes(bound_nodes(degrees, k), k as nat),
        forall|j: int|
            0 <= j < k ==> (#[trigger] degrees[j] > 0 <==> bound_nodes(degrees, k).contains(
                j as usize,
            )),
    decreases k,
{
    if k > 0 {
        lemma_bound_nodes(degrees, k - 1);
        let before = bound_nodes(degrees, k - 1);
        let now = bound_nodes(degrees, k);
        assert forall|j: int| 0 <= j < k implies (#[trigger] degrees[j] > 0 <==> now.contains(
            j as usize,
        )) by {
            if j < k - 1 {
                assert(degrees[j] > 0 <==> before.contains(j as usize));
                if before.contains(j as usize) {
                    let p = choose|p: int| 0 <= p < before.len() && before[p] == j as usize;
                    assert(now[p] == j as usize);
                }
                if now.contains(j as usize) {
                    let p = choose|p: int| 0 <= p < now.len() && now[p] == j as usize;
                    assert(before[p] == j as usize);
                }
            } else if degrees[j] > 0 {
                assert(now[before.len() as int] == j as usize);
            }
        }
    }
}

/// Whether ranks can be given to nodes so that every edge leads to a node of a higher rank:
/// whether there is no cycle.
pub open spec fn acyclic(edges: Seq<Seq<usize>>) -> bool {
    exists|rank: spec_fn(int) -> nat| #[trigger] ranks(edges, rank)
}

pub open spec fn ranks(edges: Seq<Seq<usize>>, rank: spec_fn(int) -> nat) -> bool {
    forall|i: int, j: int|
        0 <= j < edges.len() && #[trigger] has_edge(edges, i, j) ==> rank(i) < rank(j)
}

/// All nodes are sorted exactly where there is no cycle.
pub proof fn all_sorted_if_acyclic(edges: Seq<Seq<usize>>)
    requires
        is_graph(edges),
        edges.len() <= usize::MAX,
    ensures
        acyclic(edges) <==> cyclic_nodes(edges).len() == 0,
{
    lemma_sorting(edges);
    let n = edges.len();
    let sorted = sorted_nodes(edges);
    let cyclic = cyclic_nodes(edges);
    if acyclic(edges) {
        let rank = choose|rank: spec_fn(int) -> nat| #[trigger] ranks(edges, rank);
        if cyclic.len() > 0 {
            lemma_bound_nodes(sorting(edges).1, n as int);
            assert(cyclic.contains(cyclic[0]));
            nodes_are_sorted_or_cyclic(edges, cyclic[0]);
            lemma_no_cycle(edges, rank, cyclic[0] as int);
        }
    }
    if cyclic.len() == 0 {
        let rank = |i: int| position(sorted, i, sorted.len() as int);
        assert forall|i: int, j: int|
            0 <= j < n && #[trigger] has_edge(edges, i, j) implies rank(i) < rank(j) by {
            nodes_are_sorted_or_cyclic(edges, j as usize);
            let p = choose|p: int| 0 <= p < sorted.len() && sorted[p] == j as usize;
            assert(has_edge(edges, i, sorted[p] as int));
            sources_come_first(edges, i, p);
            let q = choose|q: int| 0 <= q < p && #[trigger] sorted[q] == i;
            lemma_position(sorted, p, sorted.len() as int);
            lemma_position(sorted, q, sorted.len() as int);
        }
        assert(ranks(edges, rank));
    }
}

/// Where a node stands among the first `k` of a row.
pub open spec fn position(nodes: Seq<usize>, node: int, k: int) -> nat
    decreases k,
{
    if k <= 0 || k > nodes.len() {
        0
    } else if nodes[k - 1] == node {
        (k - 1) as nat
    } else {
        position(nodes, node, k - 1)
    }
}

pub proof fn lemma_position(nodes: Seq<usize>, p: int, k: int)
    requires
        0 <= p < k <= nodes.len(),
        forall|p: int, q: int| 0 <= p < q < nodes.len() ==> nodes[p] != nodes[q],
    ensures
        position(nodes, nodes[p] as int, k) == p,
    decreases k,
{
    if p < k - 1 {
        lemma_position(nodes, p, k - 1);
    }
}

/// Where ranks rise along edges, every node is sorted.
proof fn lemma_no_cycle(edges: Seq<Seq<usize>>, rank: spec_fn(int) -> nat, j: int)
    requires
        is_graph(edges),
        edges.len() <= usize::MAX,
        ranks(edges, rank),
        0 <= j < edges.len(),
    ensures
        sorted_nodes(edges).contains(j as usize),
    decreases rank(j),
{
    lemma_sorting(edges);
    let sorted = sorted_nodes(edges);
    let degrees = sorting(edges).1;
    assert(sorted.take(sorted.len() as int) =~= sorted);
    assert(degrees[j] == 0 <==> sorted.contains(j as usize));
    if !sorted.contains(j as usize) {
        let i = lemma_some_left(edges, sorted, j, edges.len() as int);
        lemma_no_cycle(edges, rank, i);
    }
}

/// Where no edge leads to the first node, it is sorted first.
pub proof fn first_free_node(edges: Seq<Seq<usize>>)
    requires
        is_graph(edges),
        0 < edges.len() <= usize::MAX,
        forall|i: int| !has_edge(edges, i, 0),
    ensures
        sorted_nodes(edges).len() > 0,
        sorted_nodes(edges)[0] == 0,
{
    let n = edges.len() as int;
    let degrees = in_degrees(edges, n);
    let found = free_nodes(degrees, n);
    lemma_no_edges(edges, 0, n);
    lemma_free_first(degrees, n);
    lemma_start(edges);
    lemma_found_stays(edges, degrees, found, 0);
    assert(sorted_nodes(edges).take(found.len() as int)[0] == found[0]);
}

/// A node to which no edge leads is sorted before every node to which one does.
pub proof fn free_nodes_come_first(edges: Seq<Seq<usize>>, j: int, i: int, p: int)
    requires
        is_graph(edges),
        edges.len() <= usize::MAX,
        0 <= j < edges.len(),
        forall|i: int| !has_edge(edges, i, j),
        0 <= p < sorted_nodes(edges).len(),
        has_edge(edges, i, sorted_nodes(edges)[p] as int),
    ensures
        exists|q: int| 0 <= q < p && #[trigger] sorted_nodes(edges)[q] == j,
{
    let n = edges.len() as int;
    let degrees = in_degrees(edges, n);
    let found = free_nodes(degrees, n);
    let sorted = sorted_nodes(edges);
    lemma_no_edges(edges, j, n);
    lemma_start(edges);
    lemma_found_stays(edges, degrees, found, 0);
    lemma_free_nodes(degrees, n);
    assert(degrees[j] == 0);
    assert(found.contains(j as usize));
    let q = choose|q: int| 0 <= q < found.len() && found[q] == j as usize;
    assert(sorted.take(found.len() as int)[q] == sorted[q]);
    if p < found.len() {
        let node = sorted[p];
        assert(sorted.take(found.len() as int)[p] == node);
        assert(found[p] == node);
        assert(found.contains(node));
        assert(0 <= node < n);
        assert(degrees[node as int] == 0 <==> found.contains(node as int as usize));
        lemma_some_edge(edges, i, node as int, n);
    }
    assert(sorted[q] == j);
}

/// A node to which no edge leads is sorted.
pub proof fn free_nodes_are_sorted(edges: Seq<Seq<usize>>, j: int)
    requires
        is_graph(edges),
        edges.len() <= usize::MAX,
        0 <= j < edges.len(),
        forall|i: int| !has_edge(edges, i, j),
    ensures
        sorted_nodes(edges).contains(j as usize),
{
    let n = edges.len() as int;
    let degrees = in_degrees(edges, n);
    let found = free_nodes(degrees, n);
    lemma_no_edges(edges, j, n);
    lemma_start(edges);
    lemma_found_stays(edges, degrees, found, 0);
    lemma_free_nodes(degrees, n);
    assert(degrees[j] == 0);
    let q = choose|q: int| 0 <= q < found.len() && found[q] == j as usize;
    assert(sorted_nodes(edges).take(found.len() as int)[q] == sorted_nodes(edges)[q]);
}

proof fn lemma_some_edge(edges: Seq<Seq<usize>>, i: int, j: int, k: int)
    requires
        has_edge(edges, i, j),
        i < k <= edges.len(),
    ensures
        in_degree(edges, j, k) > 0,
    decreases k,
{
    if i < k - 1 {
        lemma_some_edge(edges, i, j, k - 1);
    }
}

proof fn lemma_no_edges(edges: Seq<Seq<usize>>, j: int, k: int)
    requires
        forall|i: int| !has_edge(edges, i, j),
    ensures
        in_degree(edges, j, k) == 0,
    decreases k,
{
    if 0 < k <= edges.len() {
        lemma_no_edges(edges, j, k - 1);
        assert(!has_edge(edges, k - 1, j));
    }
}

proof fn lemma_free_first(degrees: Seq<nat>, k: int)
    requires
        0 < k <= degrees.len(),
        degrees[0] == 0,
    ensures
        free_nodes(degrees, k).len() > 0,
        free_nodes(degrees, k)[0] == 0,
    decreases k,
{
    reveal_with_fuel(free_nodes, 2);
    if k > 1 {
        lemma_free_first(degrees, k - 1);
    }
}

proof fn lemma_found_stays(edges: Seq<Seq<usize>>, degrees: Seq<nat>, found: Seq<usize>, taken: int)
    requires
        is_graph(edges),
        edges.len() <= usize::MAX,
        sorting_state(edges, degrees, found, taken),
    ensures
        found.len() <= take_away(edges, degrees, found, taken).0.len(),
        take_away(edges, degrees, found, taken).0.take(found.len() as int) == found,
    decreases edges.len() - taken,
{
    assert(found.take(found.len() as int) =~= found);
    if taken < found.len() && taken < edges.len() {
        let targets = edges[found[taken] as int];
        let (d, f) = release(degrees, found, targets, targets.len() as int);
        lemma_release(edges, degrees, found, taken, targets.len() as int);
        lemma_step(edges, degrees, found, taken);
        lemma_found_stays(edges, d, f, taken + 1);
        let all = take_away(edges, d, f, taken + 1).0;
        assert(all.take(found.len() as int) =~= all.take(f.len() as int).take(
            found.len() as int,
        ));
    }
}

} // verus!

//! The projects that a project depends on, in turn.
//!
//! Each project declares its name and where its dependencies are. Starting from one project,
//! all projects are gathered, each once however many others depend on it, and sorted so that
//! each stands behind its dependencies.
use vstd::prelude::*;

use crate::checker::{extract_module_name, module_name_of};
use crate::data::{
    append_item, lemma_key_index, lookup, result_view, with_entry, Duplicate, StringMap,
};
use crate::graph;
use crate::spec::{ModuleSpec, ModuleSpecModel, SubsystemSpec, SubsystemSpecModel};
use crate::text;

verus! {

// ─── Projects ─────────────────────────────────────────────────────────────────

/// A project in a dependency graph.
#[derive(Debug)]
pub struct ResolvedProject {
    /// The name that the project declares.
    pub name: String,
    /// Where the project is.
    pub root: String,
    /// The specs of its modules.
    pub specs: Vec<ModuleSpec>,
    pub subsystems: Vec<SubsystemSpec>,
    /// The modules that it declares as public.
    pub public_modules: Option<Vec<String>>,
    /// The names of its direct dependencies.
    pub dependency_names: Vec<String>,
}

/// What a [`ResolvedProject`] holds.
#[verifier::ext_equal]
pub struct ResolvedProjectModel {
    pub name: Seq<char>,
    pub root: Seq<char>,
    pub specs: Seq<ModuleSpecModel>,
    pub subsystems: Seq<SubsystemSpecModel>,
    pub public_modules: Option<Seq<Seq<char>>>,
    pub dependency_names: Seq<Seq<char>>,
}

impl DeepView for ResolvedProject {
    type V = ResolvedProjectModel;

    open spec fn deep_view(&self) -> ResolvedProjectModel {
        ResolvedProjectModel {
            name: self.name.deep_view(),
            root: self.root.deep_view(),
            specs: self.specs.deep_view(),
            subsystems: self.subsystems.deep_view(),
            public_modules: self.public_modules.deep_view(),
            dependency_names: self.dependency_names.deep_view(),
        }
    }
}

impl Clone for ResolvedProject {
    fn clone(&self) -> (r: Self)
        ensures
            r.deep_view() == self.deep_view(),
    {
        self.duplicate()
    }
}

impl Duplicate for ResolvedProject {
    fn duplicate(&self) -> (r: Self) {
        ResolvedProject {
            name: self.name.duplicate(),
            root: self.root.duplicate(),
            specs: self.specs.duplicate(),
            subsystems: self.subsystems.duplicate(),
            public_modules: self.public_modules.duplicate(),
            dependency_names: self.dependency_names.duplicate(),
        }
    }
}

/// Whether a reference names a module: by its path, or by the name in its path.
pub open spec fn refers_to(reference: Seq<char>, module: Seq<char>) -> bool {
    module == reference || module_name_of(module) == reference
}

/// Whether a reference names a module in a list.
pub open spec fn listed(modules: Seq<Seq<char>>, reference: Seq<char>) -> bool {
    exists|i: int| 0 <= i < modules.len() && refers_to(reference, #[trigger] modules[i])
}

impl ResolvedProjectModel {
    /// Whether others may use a module: one of those declared as public, if any are declared;
    /// or else one of those in subsystems, if there are any; or else every module.
    pub open spec fn is_public(self, reference: Seq<char>) -> bool {
        match self.public_modules {
            Some(public) => listed(public, reference),
            None => self.subsystems.len() == 0 || exists|i: int|
                0 <= i < self.subsystems.len() && listed(
                    (#[trigger] self.subsystems[i]).modules,
                    reference,
                ),
        }
    }
}

pub(crate) fn find_listed(modules: &Vec<String>, reference: &str) -> (b: bool)
    ensures
        b == listed(modules.deep_view(), reference@),
{
    let ghost all = modules.deep_view();
    let mut i: usize = 0;
    while i < modules.len()
        invariant
            i <= modules@.len(),
            all == modules.deep_view(),
            forall|j: int| 0 <= j < i ==> !refers_to(reference@, #[trigger] all[j]),
        decreases modules@.len() - i,
    {
        assert(all[i as int] == modules@[i as int]@);
        let module = modules[i].as_str();
        if text::same(module, reference) || text::same(
            extract_module_name(module).as_str(),
            reference,
        ) {
            assert(refers_to(reference@, all[i as int]));
            return true;
        }
        i += 1;
    }
    false
}

impl ResolvedProject {
    /// Whether others may use a module, by its path or by its name.
    pub fn is_module_public(&self, module_ref: &str) -> (b: bool)
        ensures
            b == self.deep_view().is_public(module_ref@),
    {
        match &self.public_modules {
            Some(public) => find_listed(public, module_ref),
            None => {
                if self.subsystems.len() == 0 {
                    return true;
                }
                let ghost all = self.subsystems.deep_view();
                let mut i: usize = 0;
                while i < self.subsystems.len()
                    invariant
                        i <= self.subsystems@.len(),
                        all == self.subsystems.deep_view(),
                        self.public_modules is None,
                        self.subsystems@.len() > 0,
                        forall|j: int|
                            0 <= j < i ==> !listed((#[trigger] all[j]).modules, module_ref@),
                    decreases self.subsystems@.len() - i,
                {
                    assert(all[i as int] == self.subsystems@[i as int].deep_view());
                    if find_listed(&self.subsystems[i].modules, module_ref) {
                        assert(listed(self.deep_view().subsystems[i as int].modules, module_ref@));
                        return true;
                    }
                    i += 1;
                }
                false
            },
        }
    }
}

// ─── Sorting projects ─────────────────────────────────────────────────────────

/// The last of the first `k` projects with a name.
pub open spec fn last_named(projects: Seq<ResolvedProjectModel>, name: Seq<char>, k: int) -> Option<
    int,
>
    decreases k,
{
    if k <= 0 || k > projects.len() {
        None
    } else if projects[k - 1].name == name {
        Some(k - 1)
    } else {
        last_named(projects, name, k - 1)
    }
}

/// The project with a name.
pub open spec fn named(projects: Seq<ResolvedProjectModel>, name: Seq<char>) -> Option<int> {
    last_named(projects, name, projects.len() as int)
}

/// The projects that the first `k` names stand for, where there are any.
pub open spec fn targets(
    projects: Seq<ResolvedProjectModel>,
    names: Seq<Seq<char>>,
    k: int,
) -> Seq<usize>
    decreases k,
{
    if k <= 0 || k > names.len() {
        Seq::empty()
    } else {
        match named(projects, names[k - 1]) {
            Some(j) => targets(projects, names, k - 1).push(j as usize),
            None => targets(projects, names, k - 1),
        }
    }
}

/// The graph of projects: an edge leads from each to its dependencies.
pub open spec fn project_edges(projects: Seq<ResolvedProjectModel>) -> Seq<Seq<usize>> {
    Seq::new(
        projects.len(),
        |i: int|
            targets(
                projects,
                projects[i].dependency_names,
                projects[i].dependency_names.len() as int,
            ),
    )
}

proof fn lemma_last_named(projects: Seq<ResolvedProjectModel>, name: Seq<char>, k: int)
    requires
        0 <= k <= projects.len(),
    ensures
        match last_named(projects, name, k) {
            Some(j) => 0 <= j < k && projects[j].name == name,
            None => forall|j: int| 0 <= j < k ==> (#[trigger] projects[j]).name != name,
        },
    decreases k,
{
    if k > 0 {
        lemma_last_named(projects, name, k - 1);
    }
}

proof fn lemma_targets(projects: Seq<ResolvedProjectModel>, names: Seq<Seq<char>>, k: int)
    requires
        projects.len() <= usize::MAX,
    ensures
        forall|p: int|
            0 <= p < targets(projects, names, k).len() ==> (#[trigger] targets(
                projects,
                names,
                k,
            )[p]) < projects.len(),
    decreases k,
{
    if 0 < k <= names.len() {
        lemma_targets(projects, names, k - 1);
        lemma_last_named(projects, names[k - 1], projects.len() as int);
        let before = targets(projects, names, k - 1);
        let now = targets(projects, names, k);
        assert forall|p: int| 0 <= p < now.len() implies (#[trigger] now[p]) < projects.len() by {
            if p < before.len() {
                assert(now[p] == before[p]);
            }
        }
    }
}

proof fn lemma_project_edges(projects: Seq<ResolvedProjectModel>)
    requires
        projects.len() <= usize::MAX,
    ensures
        graph::is_graph(project_edges(projects)),
{
    let edges = project_edges(projects);
    assert forall|i: int, k: int| 0 <= i < edges.len() && 0 <= k < edges[i].len() implies (
    #[trigger] edges[i][k]) < edges.len() by {
        lemma_targets(
            projects,
            projects[i].dependency_names,
            projects[i].dependency_names.len() as int,
        );
    }
}

/// The names of the first `k` of some projects.
pub open spec fn project_names(
    projects: Seq<ResolvedProjectModel>,
    nodes: Seq<usize>,
    k: int,
) -> Seq<Seq<char>> {
    nodes.take(k).map_values(|i: usize| projects[i as int].name)
}

/// The order of projects, each behind its dependencies.
pub open spec fn project_order(projects: Seq<ResolvedProjectModel>) -> Seq<usize> {
    graph::sorted_nodes(project_edges(projects)).reverse()
}

/// Projects in the order of nodes.
pub open spec fn in_order(projects: Seq<ResolvedProjectModel>, order: Seq<usize>) -> Seq<
    ResolvedProjectModel,
> {
    order.map_values(|i: usize| projects[i as int])
}

/// Where in the order the last of the first `k` projects with each name stands.
pub open spec fn name_index(
    projects: Seq<ResolvedProjectModel>,
    order: Seq<usize>,
    k: int,
) -> Seq<(Seq<char>, usize)>
    decreases k,
{
    if k <= 0 || k > projects.len() {
        Seq::empty()
    } else {
        with_entry(
            name_index(projects, order, k - 1),
            projects[k - 1].name,
            graph::position(order, k - 1, order.len() as int) as usize,
        )
    }
}

/// The graph of projects, or an error where they depend on each other in a cycle.
pub open spec fn graph_of(projects: Seq<ResolvedProjectModel>) -> Result<
    DependencyGraphModel,
    Seq<char>,
> {
    let edges = project_edges(projects);
    let cyclic = graph::cyclic_nodes(edges);
    let order = project_order(projects);
    if cyclic.len() > 0 {
        Err(
            "Dependency cycle among projects: "@ + text::join(
                project_names(projects, cyclic, cyclic.len() as int),
                ", "@,
            ),
        )
    } else {
        Ok(
            DependencyGraphModel {
                projects: in_order(projects, order),
                index: name_index(projects, order, projects.len() as int),
            },
        )
    }
}

/// All projects that a project depends on, and the project itself.
#[derive(Debug)]
pub struct DependencyGraph {
    /// The projects, each behind its dependencies.
    pub projects: Vec<ResolvedProject>,
    /// Where in `projects` the project with a name is.
    pub index: StringMap<usize>,
}

/// What a [`DependencyGraph`] holds.
#[verifier::ext_equal]
pub struct DependencyGraphModel {
    pub projects: Seq<ResolvedProjectModel>,
    pub index: Seq<(Seq<char>, usize)>,
}

impl DeepView for DependencyGraph {
    type V = DependencyGraphModel;

    open spec fn deep_view(&self) -> DependencyGraphModel {
        DependencyGraphModel {
            projects: self.projects.deep_view(),
            index: self.index.deep_view(),
        }
    }
}

fn find_named(projects: &Vec<ResolvedProject>, name: &str) -> (r: Option<usize>)
    ensures
        match r {
            Some(j) => named(projects.deep_view(), name@) == Some(j as int),
            None => named(projects.deep_view(), name@) is None,
        },
{
    let ghost all = projects.deep_view();
    let mut k: usize = projects.len();
    while k > 0
        invariant
            k <= projects@.len(),
            all == projects.deep_view(),
            named(all, name@) == last_named(all, name@, k as int),
        decreases k,
    {
        assert(all[k - 1] == projects@[k - 1].deep_view());
        if text::same(projects[k - 1].name.as_str(), name) {
            return Some(k - 1);
        }
        k -= 1;
    }
    None
}

fn list_edges(projects: &Vec<ResolvedProject>) -> (r: Vec<Vec<usize>>)
    ensures
        r.deep_view() == project_edges(projects.deep_view()),
{
    let ghost all = projects.deep_view();
    let mut edges: Vec<Vec<usize>> = Vec::new();
    let mut i: usize = 0;
    while i < projects.len()
        invariant
            i <= projects@.len(),
            all == projects.deep_view(),
            edges.deep_view().len() == i,
            forall|j: int|
                0 <= j < i ==> #[trigger] edges.deep_view()[j] == project_edges(all)[j],
        decreases projects@.len() - i,
    {
        let names = &projects[i].dependency_names;
        assert(all[i as int] == projects@[i as int].deep_view());
        let ghost name_list = names.deep_view();
        let mut found: Vec<usize> = Vec::new();
        let mut k: usize = 0;
        assert(found.deep_view() =~= Seq::empty());
        while k < names.len()
            invariant
                k <= names@.len(),
                all == projects.deep_view(),
                name_list == names.deep_view(),
                found.deep_view() == targets(all, name_list, k as int),
            decreases names@.len() - k,
        {
            assert(name_list[k as int] == names@[k as int]@);
            match find_named(projects, names[k].as_str()) {
                Some(j) => append_item(&mut found, j),
                None => {},
            }
            k += 1;
        }
        let ghost before = edges.deep_view();
        append_item(&mut edges, found);
        assert forall|j: int| 0 <= j < i + 1 implies #[trigger] edges.deep_view()[j]
            == project_edges(all)[j] by {
            if j < i {
                assert(edges.deep_view()[j] == before[j]);
            }
        }
        i += 1;
    }
    assert(edges.deep_view() =~= project_edges(all));
    edges
}

fn find_position(order: &Vec<usize>, node: usize) -> (r: usize)
    ensures
        r == graph::position(order@, node as int, order@.len() as int),
{
    let mut k: usize = order.len();
    while k > 0
        invariant
            k <= order@.len(),
            graph::position(order@, node as int, order@.len() as int) == graph::position(
                order@,
                node as int,
                k as int,
            ),
        decreases k,
    {
        if order[k - 1] == node {
            return k - 1;
        }
        k -= 1;
    }
    0
}

impl DependencyGraph {
    /// Builds the graph of projects, or gives an error where they depend on each other in a
    /// cycle.
    pub fn toposort(projects: &Vec<ResolvedProject>) -> (r: Result<DependencyGraph, String>)
        ensures
            result_view(r) == graph_of(projects.deep_view()),
            r matches Ok(g) ==> g.wf() && g.deep_view().dependencies_first(),
    {
        let ghost all = projects.deep_view();
        let n: usize = projects.len();
        proof {
            dependencies_come_first(all);
        }
        let edges = list_edges(projects);
        proof {
            lemma_project_edges(all);
            graph::sorted_and_cyclic_are_all(project_edges(all));
        }
        let (sorted, cyclic) = graph::sort_nodes(&edges);
        if cyclic.len() > 0 {
            proof {
                let whole = sorted@ + cyclic@;
                assert forall|p: int| 0 <= p < cyclic@.len() implies (#[trigger] cyclic@[p])
                    < n by {
                    assert(whole[sorted@.len() + p] == cyclic@[p]);
                }
            }
            let mut names: Vec<String> = Vec::new();
            let mut c: usize = 0;
            assert(names.deep_view() =~= project_names(all, cyclic@, 0));
            while c < cyclic.len()
                invariant
                    c <= cyclic@.len(),
                    all == projects.deep_view(),
                    forall|p: int| 0 <= p < cyclic@.len() ==> (#[trigger] cyclic@[p]) < projects@.len(),
                    names.deep_view() == project_names(all, cyclic@, c as int),
                decreases cyclic@.len() - c,
            {
                let node: usize = cyclic[c];
                assert(all[node as int] == projects@[node as int].deep_view());
                append_item(&mut names, projects[node].name.clone());
                assert(project_names(all, cyclic@, c + 1) =~= project_names(
                    all,
                    cyclic@,
                    c as int,
                ).push(all[node as int].name));
                c += 1;
            }
            let mut message = "Dependency cycle among projects: ".to_owned();
            message.append(text::join_strings(names.as_slice(), ", ").as_str());
            return Err(message);
        }
        assert(sorted@ + cyclic@ =~= sorted@);
        let ghost order_model = sorted@.reverse();
        let mut order: Vec<usize> = Vec::new();
        let mut in_turn: Vec<ResolvedProject> = Vec::new();
        let mut p: usize = n;
        assert(in_turn.deep_view() =~= in_order(all, order_model.take(0)));
        assert(order@ =~= order_model.take(0));
        while p > 0
            invariant
                p <= n == sorted@.len() == projects@.len(),
                all == projects.deep_view(),
                order_model == sorted@.reverse(),
                graph::distinct_nodes(sorted@, n as nat),
                order@ == order_model.take(n - p),
                in_turn.deep_view() == in_order(all, order_model.take(n - p)),
            decreases p,
        {
            let node: usize = sorted[p - 1];
            assert(all[node as int] == projects@[node as int].deep_view());
            let ghost done = order_model.take(n - p);
            order.push(node);
            append_item(&mut in_turn, projects[node].duplicate());
            proof {
                assert(order_model[n - p] == node);
                assert(order_model.take(n - p + 1) =~= done.push(node));
                assert(in_order(all, done.push(node)) =~= in_order(all, done).push(
                    all[node as int],
                ));
            }
            p -= 1;
        }
        assert(order_model.take(n as int) =~= order_model);
        let mut index: StringMap<usize> = StringMap::new();
        let mut i: usize = 0;
        while i < n
            invariant
                i <= n == projects@.len(),
                all == projects.deep_view(),
                order@ == order_model,
                order@.len() == n,
                index.deep_view() == name_index(all, order_model, i as int),
                index.wf(),
                positions_within(index.deep_view(), n as nat),
            decreases n - i,
        {
            assert(all[i as int] == projects@[i as int].deep_view());
            let place: usize = find_position(&order, i);
            proof {
                lemma_position_within(order@, i as int, n as int);
                lemma_key_index(index.deep_view(), all[i as int].name);
            }
            index.insert(projects[i].name.clone(), place);
            i += 1;
        }
        let ghost index_model = index.deep_view();
        let ghost sorted_projects = in_turn.deep_view();
        let r = DependencyGraph { projects: in_turn, index };
        assert(r.deep_view().index == index_model);
        assert(r.deep_view().projects == sorted_projects);
        Ok(r)
    }

    /// Whether the index leads to projects.
    pub open spec fn wf(&self) -> bool {
        positions_within(self.deep_view().index, self.deep_view().projects.len())
    }

    /// The project with a name.
    pub fn get(&self, name: &str) -> (r: Option<&ResolvedProject>)
        requires
            self.wf(),
        ensures
            match r {
                Some(p) => self.deep_view().project(name@) == Some(p.deep_view()),
                None => self.deep_view().project(name@) is None,
            },
    {
        proof {
            lemma_key_index(self.deep_view().index, name@);
        }
        match self.index.get(name) {
            Some(i) => {
                assert(self.deep_view().projects[*i as int] == self.projects@[*i as int].deep_view());
                Some(&self.projects[*i])
            },
            None => None,
        }
    }

    /// The project that the graph was built for: the last one.
    pub fn root_project(&self) -> (r: &ResolvedProject)
        requires
            self.deep_view().projects.len() > 0,
        ensures
            r.deep_view() == self.deep_view().projects.last(),
    {
        &self.projects[self.projects.len() - 1]
    }

    /// Splits a reference to a module of another project into the project and the module. A
    /// reference within the project has no `::`.
    pub fn parse_cross_ref(reference: &str) -> (r: Option<(String, String)>)
        ensures
            r.deep_view() == cross_ref(reference@),
    {
        let chars = text::chars_of(reference);
        let delimiter = text::chars_of("::");
        proof {
            reveal_strlit("::");
            text::lemma_find_from(reference@, "::"@, 0);
        }
        match text::find_chars_from(chars.as_slice(), delimiter.as_slice(), 0) {
            Some(p) => {
                let n: usize = chars.len();
                assert(chars@.skip(p + 2) =~= chars@.subrange(p + 2, n as int));
                assert(chars@.take(p as int) =~= chars@.subrange(0, p as int));
                Some(
                    (
                        text::piece(chars.as_slice(), 0, p),
                        text::piece(chars.as_slice(), p + 2, n),
                    ),
                )
            },
            None => None,
        }
    }

    /// The projects that the root project depends on.
    pub fn dependencies(&self) -> (r: &[ResolvedProject])
        ensures
            r.deep_view() == (if self.deep_view().projects.len() > 1 {
                self.deep_view().projects.drop_last()
            } else {
                Seq::empty()
            }),
    {
        let n: usize = self.projects.len();
        let end: usize = if n > 1 {
            n - 1
        } else {
            0
        };
        let r = vstd::slice::slice_subrange(self.projects.as_slice(), 0, end);
        assert(r.deep_view() =~= self.deep_view().projects.take(end as int));
        r
    }
}

/// Whether every entry of an index is below a bound.
pub open spec fn positions_within(index: Seq<(Seq<char>, usize)>, n: nat) -> bool {
    forall|i: int| 0 <= i < index.len() ==> (#[trigger] index[i]).1 < n
}

proof fn lemma_position_within(nodes: Seq<usize>, node: int, k: int)
    requires
        0 < k <= nodes.len(),
    ensures
        graph::position(nodes, node, k) < nodes.len(),
    decreases k,
{
    reveal_with_fuel(graph::position, 2);
    if k > 1 && nodes[k - 1] != node {
        lemma_position_within(nodes, node, k - 1);
    }
}

impl DependencyGraphModel {
    /// The project with a name.
    pub open spec fn project(self, name: Seq<char>) -> Option<ResolvedProjectModel> {
        match lookup(self.index, name) {
            Some(i) => Some(self.projects[i as int]),
            None => None,
        }
    }
}

/// The project and the module in a reference, where it has a `::`.
pub open spec fn cross_ref(reference: Seq<char>) -> Option<(Seq<char>, Seq<char>)> {
    match text::find(reference, "::"@) {
        Some(p) => Some((reference.take(p), reference.skip(p + 2))),
        None => None,
    }
}

// ─── Gathering projects ───────────────────────────────────────────────────────

/// Where a project says that a dependency is.
#[derive(Debug)]
pub struct DependencyLocation {
    /// The name that the consumer uses.
    pub name: String,
    /// Where the dependency is.
    pub root: String,
    /// Why there is nothing at that place, if so.
    pub error: Option<String>,
}

/// What a [`DependencyLocation`] holds.
#[verifier::ext_equal]
pub struct DependencyLocationModel {
    pub name: Seq<char>,
    pub root: Seq<char>,
    pub error: Option<Seq<char>>,
}

impl DeepView for DependencyLocation {
    type V = DependencyLocationModel;

    open spec fn deep_view(&self) -> DependencyLocationModel {
        DependencyLocationModel {
            name: self.name.deep_view(),
            root: self.root.deep_view(),
            error: self.error.deep_view(),
        }
    }
}

impl Clone for DependencyLocation {
    fn clone(&self) -> (r: Self)
        ensures
            r.deep_view() == self.deep_view(),
    {
        self.duplicate()
    }
}

impl Duplicate for DependencyLocation {
    fn duplicate(&self) -> (r: Self) {
        DependencyLocation {
            name: self.name.duplicate(),
            root: self.root.duplicate(),
            error: self.error.duplicate(),
        }
    }
}

/// What was read of a project.
#[derive(Debug)]
pub struct LoadedProject {
    /// The name that the project declares.
    pub name: Option<String>,
    /// The name of the directory that it is in.
    pub dir_name: Option<String>,
    pub public_modules: Option<Vec<String>>,
    pub dependencies: Vec<DependencyLocation>,
    pub specs: Vec<ModuleSpec>,
    pub subsystems: Vec<SubsystemSpec>,
    /// Why its specs could not be read, if so.
    pub spec_error: Option<String>,
}

/// What a [`LoadedProject`] holds.
#[verifier::ext_equal]
pub struct LoadedProjectModel {
    pub name: Option<Seq<char>>,
    pub dir_name: Option<Seq<char>>,
    pub public_modules: Option<Seq<Seq<char>>>,
    pub dependencies: Seq<DependencyLocationModel>,
    pub specs: Seq<ModuleSpecModel>,
    pub subsystems: Seq<SubsystemSpecModel>,
    pub spec_error: Option<Seq<char>>,
}

impl DeepView for LoadedProject {
    type V = LoadedProjectModel;

    open spec fn deep_view(&self) -> LoadedProjectModel {
        LoadedProjectModel {
            name: self.name.deep_view(),
            dir_name: self.dir_name.deep_view(),
            public_modules: self.public_modules.deep_view(),
            dependencies: self.dependencies.deep_view(),
            specs: self.specs.deep_view(),
            subsystems: self.subsystems.deep_view(),
            spec_error: self.spec_error.deep_view(),
        }
    }
}

impl LoadedProjectModel {
    /// The name of the project: the one that it declares, or that of its directory.
    pub open spec fn project_name(self) -> Seq<char> {
        match self.name {
            Some(n) => n,
            None => match self.dir_name {
                Some(d) => d,
                None => "unnamed"@,
            },
        }
    }

    pub open spec fn dependency_names(self) -> Seq<Seq<char>> {
        self.dependencies.map_values(|d: DependencyLocationModel| d.name)
    }

    /// The project at a place.
    pub open spec fn resolved(self, root: Seq<char>) -> ResolvedProjectModel {
        ResolvedProjectModel {
            name: self.project_name(),
            root,
            specs: self.specs,
            subsystems: self.subsystems,
            public_modules: self.public_modules,
            dependency_names: self.dependency_names(),
        }
    }
}

impl LoadedProject {
    fn project_name(&self) -> (r: String)
        ensures
            r@ == self.deep_view().project_name(),
    {
        match &self.name {
            Some(n) => n.clone(),
            None => match &self.dir_name {
                Some(d) => d.clone(),
                None => "unnamed".to_owned(),
            },
        }
    }

    fn dependency_names(&self) -> (r: Vec<String>)
        ensures
            r.deep_view() == self.deep_view().dependency_names(),
    {
        let ghost all = self.deep_view().dependency_names();
        let mut names: Vec<String> = Vec::new();
        let mut i: usize = 0;
        assert(names.deep_view() =~= all.take(0));
        while i < self.dependencies.len()
            invariant
                i <= self.dependencies@.len(),
                all == self.deep_view().dependency_names(),
                names.deep_view() == all.take(i as int),
            decreases self.dependencies@.len() - i,
        {
            assert(self.deep_view().dependencies[i as int]
                == self.dependencies@[i as int].deep_view());
            append_item(&mut names, self.dependencies[i].name.clone());
            assert(all.take(i + 1) =~= all.take(i as int).push(all[i as int]));
            i += 1;
        }
        assert(all.take(all.len() as int) =~= all);
        names
    }

    fn resolved(&self, root: &str) -> (r: ResolvedProject)
        ensures
            r.deep_view() == self.deep_view().resolved(root@),
    {
        ResolvedProject {
            name: self.project_name(),
            root: root.to_owned(),
            specs: self.specs.duplicate(),
            subsystems: self.subsystems.duplicate(),
            public_modules: self.public_modules.duplicate(),
            dependency_names: self.dependency_names(),
        }
    }
}

/// What is left to do while projects are gathered.
#[derive(Debug)]
pub enum Task {
    /// The root project is to be visited.
    Start(String),
    /// A dependency is to be visited.
    Visit(DependencyLocation),
    /// The dependencies of a project were visited. Its specs may have been unreadable.
    Finish(Option<String>),
}

/// What a [`Task`] holds.
#[verifier::ext_equal]
pub enum TaskModel {
    Start(Seq<char>),
    Visit(DependencyLocationModel),
    Finish(Option<Seq<char>>),
}

impl DeepView for Task {
    type V = TaskModel;

    open spec fn deep_view(&self) -> TaskModel {
        match *self {
            Task::Start(root) => TaskModel::Start(root@),
            Task::Visit(d) => TaskModel::Visit(d.deep_view()),
            Task::Finish(e) => TaskModel::Finish(e.deep_view()),
        }
    }
}

/// What gathering projects comes to.
#[verifier::ext_equal]
pub enum Gathering {
    /// All projects were found.
    Done(Seq<ResolvedProjectModel>),
    /// The project at a place must be read first.
    Load(Seq<char>),
    /// There is an error.
    Failed(Seq<char>),
}

/// The places of projects.
pub open spec fn roots(projects: Seq<ResolvedProjectModel>) -> Seq<Seq<char>> {
    projects.map_values(|p: ResolvedProjectModel| p.root)
}

/// How many of the first `k` projects that were read are not among the gathered ones.
pub open spec fn unvisited(
    loaded: Seq<(Seq<char>, LoadedProjectModel)>,
    projects: Seq<ResolvedProjectModel>,
    k: int,
) -> nat
    decreases k,
{
    if k <= 0 || k > loaded.len() {
        0
    } else {
        unvisited(loaded, projects, k - 1) + (if roots(projects).contains(loaded[k - 1].0) {
            0nat
        } else {
            1nat
        })
    }
}

/// The project at a place, among the first `k`.
pub open spec fn project_at(projects: Seq<ResolvedProjectModel>, root: Seq<char>, k: int) -> Option<
    int,
>
    decreases k,
{
    if k <= 0 || k > projects.len() {
        None
    } else {
        match project_at(projects, root, k - 1) {
            Some(i) => Some(i),
            None => if projects[k - 1].root == root {
                Some(k - 1)
            } else {
                None
            },
        }
    }
}

pub open spec fn name_conflict(
    name: Seq<char>,
    root: Seq<char>,
    expected: Seq<char>,
) -> Seq<char> {
    "Diamond dependency conflict: '"@ + name + "' at "@ + root + " is also referenced as '"@
        + expected + "'"@
}

pub open spec fn name_mismatch(
    expected: Seq<char>,
    root: Seq<char>,
    name: Seq<char>,
) -> Seq<char> {
    "Dependency name mismatch: consumer expects '"@ + expected + "' but "@ + root
        + " declares name '"@ + name + "'"@
}

/// What is to be done for a project that is visited first: its dependencies are visited in
/// turn, and then it is finished. The next task stands last.
pub open spec fn project_tasks(project: LoadedProjectModel) -> Seq<TaskModel> {
    let n = project.dependencies.len();
    seq![TaskModel::Finish(project.spec_error)] + Seq::new(
        n,
        |k: int| TaskModel::Visit(project.dependencies[n - 1 - k]),
    )
}

/// What visiting a place comes to: an error; nothing, where the project was gathered before;
/// or a project to be gathered, if it was read.
#[verifier::ext_equal]
pub enum Visiting {
    Known,
    New(LoadedProjectModel),
    Load,
    Failed(Seq<char>),
}

pub open spec fn visiting(
    loaded: Seq<(Seq<char>, LoadedProjectModel)>,
    projects: Seq<ResolvedProjectModel>,
    root: Seq<char>,
    expected: Option<Seq<char>>,
) -> Visiting {
    match project_at(projects, root, projects.len() as int) {
        Some(i) => match expected {
            Some(x) if projects[i].name != x => Visiting::Failed(
                name_conflict(projects[i].name, root, x),
            ),
            _ => Visiting::Known,
        },
        None => match lookup(loaded, root) {
            None => Visiting::Load,
            Some(l) => match expected {
                Some(x) if l.project_name() != x => Visiting::Failed(
                    name_mismatch(x, root, l.project_name()),
                ),
                _ => Visiting::New(l),
            },
        },
    }
}

/// The place that a task visits, and the name that is expected there.
pub open spec fn visited_place(task: TaskModel) -> (Seq<char>, Option<Seq<char>>) {
    match task {
        TaskModel::Start(root) => (root, None),
        TaskModel::Visit(d) => (d.root, Some(d.name)),
        TaskModel::Finish(_) => (Seq::empty(), None),
    }
}

/// Why a task fails before anything is visited, if so.
pub open spec fn task_error(task: TaskModel) -> Option<Seq<char>> {
    match task {
        TaskModel::Start(_) => None,
        TaskModel::Visit(d) => d.error,
        TaskModel::Finish(e) => e,
    }
}

/// Gathers projects: those that tasks visit and their dependencies, in turn, each once.
pub open spec fn gathering(
    loaded: Seq<(Seq<char>, LoadedProjectModel)>,
    tasks: Seq<TaskModel>,
    projects: Seq<ResolvedProjectModel>,
) -> Gathering
    decreases unvisited(loaded, projects, loaded.len() as int), tasks.len(),
    via gathering_ends
{
    if tasks.len() == 0 {
        Gathering::Done(projects)
    } else {
        let task = tasks.last();
        let rest = tasks.drop_last();
        let (root, expected) = visited_place(task);
        match task_error(task) {
            Some(e) => Gathering::Failed(e),
            None => if task is Finish {
                gathering(loaded, rest, projects)
            } else {
                match visiting(loaded, projects, root, expected) {
                    Visiting::Failed(e) => Gathering::Failed(e),
                    Visiting::Load => Gathering::Load(root),
                    Visiting::Known => gathering(loaded, rest, projects),
                    Visiting::New(l) => gathering(
                        loaded,
                        rest + project_tasks(l),
                        projects.push(l.resolved(root)),
                    ),
                }
            },
        }
    }
}

#[via_fn]
proof fn gathering_ends(
    loaded: Seq<(Seq<char>, LoadedProjectModel)>,
    tasks: Seq<TaskModel>,
    projects: Seq<ResolvedProjectModel>,
) {
    if tasks.len() > 0 {
        let (root, expected) = visited_place(tasks.last());
        match visiting(loaded, projects, root, expected) {
            Visiting::New(l) => {
                lemma_visit(loaded, projects, root, l);
            },
            _ => {},
        }
    }
}

/// One project fewer is unvisited when a new one is gathered.
proof fn lemma_visit(
    loaded: Seq<(Seq<char>, LoadedProjectModel)>,
    projects: Seq<ResolvedProjectModel>,
    root: Seq<char>,
    l: LoadedProjectModel,
)
    requires
        project_at(projects, root, projects.len() as int) is None,
        lookup(loaded, root) == Some(l),
    ensures
        unvisited(loaded, projects.push(l.resolved(root)), loaded.len() as int) < unvisited(
            loaded,
            projects,
            loaded.len() as int,
        ),
{
    lemma_project_at(projects, root, projects.len() as int);
    lemma_key_index(loaded, root);
    let i = crate::data::key_index(loaded, root);
    lemma_fewer_unvisited(loaded, projects, l.resolved(root), loaded.len() as int, i);
}

proof fn lemma_project_at(projects: Seq<ResolvedProjectModel>, root: Seq<char>, k: int)
    requires
        0 <= k <= projects.len(),
    ensures
        match project_at(projects, root, k) {
            Some(i) => 0 <= i < k && projects[i].root == root,
            None => forall|i: int| 0 <= i < k ==> (#[trigger] projects[i]).root != root,
        },
    decreases k,
{
    if k > 0 {
        lemma_project_at(projects, root, k - 1);
    }
}

proof fn lemma_fewer_unvisited(
    loaded: Seq<(Seq<char>, LoadedProjectModel)>,
    projects: Seq<ResolvedProjectModel>,
    p: ResolvedProjectModel,
    k: int,
    i: int,
)
    requires
        0 <= k <= loaded.len(),
        0 <= i < loaded.len(),
        loaded[i].0 == p.root,
        forall|j: int| 0 <= j < projects.len() ==> (#[trigger] projects[j]).root != p.root,
    ensures
        unvisited(loaded, projects.push(p), k) + (if i < k {
            1nat
        } else {
            0nat
        }) <= unvisited(loaded, projects, k),
    decreases k,
{
    if k > 0 {
        lemma_fewer_unvisited(loaded, projects, p, k - 1, i);
        let key = loaded[k - 1].0;
        let now = projects.push(p);
        if roots(projects).contains(key) {
            let j = choose|j: int| 0 <= j < projects.len() && roots(projects)[j] == key;
            assert(roots(now)[j] == key);
            assert(roots(now).contains(key));
        }
        if i == k - 1 {
            assert(roots(now)[projects.len() as int] == key);
            assert(roots(now).contains(key));
            assert(!roots(projects).contains(key));
        }
    }
}

/// What is to be done next to resolve the projects that a project depends on.
#[derive(Debug)]
pub enum ResolveStep {
    /// The graph was built.
    Done(DependencyGraph),
    /// The project at a place is to be read.
    Load(String),
    /// There is an error.
    Failed(String),
}

/// What a [`ResolveStep`] holds.
#[verifier::ext_equal]
pub enum ResolveStepModel {
    Done(DependencyGraphModel),
    Load(Seq<char>),
    Failed(Seq<char>),
}

impl DeepView for ResolveStep {
    type V = ResolveStepModel;

    open spec fn deep_view(&self) -> ResolveStepModel {
        match *self {
            ResolveStep::Done(g) => ResolveStepModel::Done(g.deep_view()),
            ResolveStep::Load(root) => ResolveStepModel::Load(root@),
            ResolveStep::Failed(e) => ResolveStepModel::Failed(e@),
        }
    }
}

/// What gathered projects are resolved to.
pub open spec fn resolution(gathered: Gathering) -> ResolveStepModel {
    match gathered {
        Gathering::Load(root) => ResolveStepModel::Load(root),
        Gathering::Failed(e) => ResolveStepModel::Failed(e),
        Gathering::Done(projects) => match graph_of(projects) {
            Ok(g) => ResolveStepModel::Done(g),
            Err(e) => ResolveStepModel::Failed(e),
        },
    }
}

/// What gathering from a root project on comes to.
pub open spec fn gathered_from(
    loaded: Seq<(Seq<char>, LoadedProjectModel)>,
    root: Seq<char>,
) -> Gathering {
    gathering(loaded, seq![TaskModel::Start(root)], Seq::empty())
}

fn find_project(projects: &Vec<ResolvedProject>, root: &str) -> (r: Option<usize>)
    ensures
        match r {
            Some(i) => project_at(projects.deep_view(), root@, projects@.len() as int) == Some(
                i as int,
            ) && i < projects@.len(),
            None => project_at(projects.deep_view(), root@, projects@.len() as int) is None,
        },
{
    let ghost all = projects.deep_view();
    let mut k: usize = 0;
    while k < projects.len()
        invariant
            k <= projects@.len(),
            all == projects.deep_view(),
            project_at(all, root@, k as int) is None,
        decreases projects@.len() - k,
    {
        assert(all[k as int] == projects@[k as int].deep_view());
        if text::same(projects[k].root.as_str(), root) {
            proof {
                assert(project_at(all, root@, k + 1) == Some(k as int));
                lemma_first_at(all, root@, k + 1, all.len() as int);
            }
            return Some(k);
        }
        k += 1;
    }
    None
}

proof fn lemma_first_at(projects: Seq<ResolvedProjectModel>, root: Seq<char>, k: int, n: int)
    requires
        0 <= k <= n <= projects.len(),
        project_at(projects, root, k) is Some,
    ensures
        project_at(projects, root, n) == project_at(projects, root, k),
    decreases n,
{
    if k < n {
        lemma_first_at(projects, root, k, n - 1);
    }
}

/// What visiting a place comes to, when the place was looked up.
enum Visit<'a> {
    Known,
    New(&'a LoadedProject),
    Load,
    Failed(String),
}

spec fn visit_view(v: Visit) -> Visiting {
    match v {
        Visit::Known => Visiting::Known,
        Visit::New(l) => Visiting::New(l.deep_view()),
        Visit::Load => Visiting::Load,
        Visit::Failed(e) => Visiting::Failed(e@),
    }
}

fn visit<'a>(
    loaded: &'a StringMap<LoadedProject>,
    projects: &Vec<ResolvedProject>,
    root: &str,
    expected: Option<&str>,
) -> (r: Visit<'a>)
    ensures
        visit_view(r) == visiting(
            loaded.deep_view(),
            projects.deep_view(),
            root@,
            match expected {
                Some(x) => Some(x@),
                None => None,
            },
        ),
{
    match find_project(projects, root) {
        Some(i) => {
            assert(projects.deep_view()[i as int] == projects@[i as int].deep_view());
            match expected {
                Some(x) => {
                    let name = projects[i].name.as_str();
                    if text::same(name, x) {
                        Visit::Known
                    } else {
                        let mut message = "Diamond dependency conflict: '".to_owned();
                        message.append(name);
                        message.append("' at ");
                        message.append(root);
                        message.append(" is also referenced as '");
                        message.append(x);
                        message.append("'");
                        Visit::Failed(message)
                    }
                },
                None => Visit::Known,
            }
        },
        None => match loaded.get(root) {
            None => Visit::Load,
            Some(l) => match expected {
                Some(x) => {
                    let name = l.project_name();
                    if text::same(name.as_str(), x) {
                        Visit::New(l)
                    } else {
                        let mut message =
                            "Dependency name mismatch: consumer expects '".to_owned();
                        message.append(x);
                        message.append("' but ");
                        message.append(root);
                        message.append(" declares name '");
                        message.append(name.as_str());
                        message.append("'");
                        Visit::Failed(message)
                    }
                },
                None => Visit::New(l),
            },
        },
    }
}

fn add_tasks(tasks: &mut Vec<Task>, project: &LoadedProject)
    ensures
        final(tasks).deep_view() == old(tasks).deep_view() + project_tasks(project.deep_view()),
{
    let ghost start = tasks.deep_view();
    let ghost model = project.deep_view();
    let ghost all = project_tasks(model);
    append_item(tasks, Task::Finish(project.spec_error.duplicate()));
    let n: usize = project.dependencies.len();
    let mut k: usize = n;
    assert(tasks.deep_view() =~= start + all.take(1));
    while k > 0
        invariant
            k <= n == project.dependencies@.len(),
            model == project.deep_view(),
            all == project_tasks(model),
            tasks.deep_view() == start + all.take(1 + n - k),
        decreases k,
    {
        assert(model.dependencies[k - 1] == project.dependencies@[k - 1].deep_view());
        append_item(tasks, Task::Visit(project.dependencies[k - 1].duplicate()));
        assert(all[1 + n - k] == TaskModel::Visit(model.dependencies[k - 1]));
        assert(start + all.take(2 + n - k) =~= (start + all.take(1 + n - k)).push(
            all[1 + n - k],
        ));
        k -= 1;
    }
    assert(all.take(1 + n) =~= all);
}

fn task_place(task: &Task) -> (r: Option<(&str, Option<&str>)>)
    ensures
        match r {
            Some((root, Some(x))) => !(task is Finish) && visited_place(task.deep_view()) == (
                root@,
                Some(x@),
            ),
            Some((root, None)) => !(task is Finish) && visited_place(task.deep_view()) == (
                root@,
                None::<Seq<char>>,
            ),
            None => task is Finish,
        },
{
    match task {
        Task::Start(root) => Some((root.as_str(), None)),
        Task::Visit(d) => Some((d.root.as_str(), Some(d.name.as_str()))),
        Task::Finish(_) => None,
    }
}

fn early_error(task: &Task) -> (r: Option<String>)
    ensures
        r.deep_view() == task_error(task.deep_view()),
{
    match task {
        Task::Start(_) => None,
        Task::Visit(d) => d.error.duplicate(),
        Task::Finish(e) => e.duplicate(),
    }
}

fn remove_last(tasks: &mut Vec<Task>) -> (r: Task)
    requires
        old(tasks)@.len() > 0,
    ensures
        r.deep_view() == old(tasks).deep_view().last(),
        final(tasks).deep_view() == old(tasks).deep_view().drop_last(),
{
    let ghost before = tasks.deep_view();
    let last: usize = tasks.len() - 1;
    assert(before[last as int] == tasks@[last as int].deep_view());
    let task = tasks.remove(last);
    assert(tasks.deep_view() =~= before.drop_last());
    task
}

impl DependencyGraph {
    /// Resolves the projects that a project depends on, from those that were read so far: gives
    /// the graph of them all, or an error, or names the project to be read next.
    pub fn resolve(loaded: &StringMap<LoadedProject>, root: &str) -> (r: ResolveStep)
        ensures
            r.deep_view() == resolution(gathered_from(loaded.deep_view(), root@)),
            r matches ResolveStep::Done(g) ==> g.wf() && g.deep_view().dependencies_first()
                && g.deep_view().projects.len() > 0,
    {
        let ghost world = loaded.deep_view();
        let mut projects: Vec<ResolvedProject> = Vec::new();
        let mut tasks: Vec<Task> = Vec::new();
        append_item(&mut tasks, Task::Start(root.to_owned()));
        proof {
            assert(tasks.deep_view() =~= seq![TaskModel::Start(root@)]);
            assert(projects.deep_view() =~= Seq::empty());
        }
        while tasks.len() > 0
            invariant
                world == loaded.deep_view(),
                gathered_from(world, root@) == gathering(
                    world,
                    tasks.deep_view(),
                    projects.deep_view(),
                ),
            decreases
                    unvisited(world, projects.deep_view(), world.len() as int),
                    tasks.deep_view().len(),
        {
            let ghost gathered = projects.deep_view();
            let task = remove_last(&mut tasks);
            match early_error(&task) {
                Some(e) => return ResolveStep::Failed(e),
                None => {},
            }
            match task_place(&task) {
                None => {},
                Some((place, expected)) => match visit(loaded, &projects, place, expected) {
                    Visit::Known => {},
                    Visit::Failed(e) => return ResolveStep::Failed(e),
                    Visit::Load => return ResolveStep::Load(place.to_owned()),
                    Visit::New(l) => {
                        proof {
                            lemma_visit(world, gathered, place@, l.deep_view());
                        }
                        add_tasks(&mut tasks, l);
                        append_item(&mut projects, l.resolved(place));
                    },
                },
            }
        }
        let count: usize = projects.len();
        proof {
            assert(projects.deep_view().len() == count);
            gathered_projects_are_complete(world, root@);
            graphs_hold_all_projects(projects.deep_view());
        }
        match DependencyGraph::toposort(&projects) {
            Ok(g) => ResolveStep::Done(g),
            Err(e) => ResolveStep::Failed(e),
        }
    }
}

// ─── The tree of dependencies ─────────────────────────────────────────────────

/// A line of the tree of dependencies.
#[derive(Debug)]
pub struct TreeLine {
    /// What stands before the name.
    pub indent: String,
    pub name: String,
    pub root: String,
}

/// What a [`TreeLine`] holds.
#[verifier::ext_equal]
pub struct TreeLineModel {
    pub indent: Seq<char>,
    pub name: Seq<char>,
    pub root: Seq<char>,
}

impl DeepView for TreeLine {
    type V = TreeLineModel;

    open spec fn deep_view(&self) -> TreeLineModel {
        TreeLineModel {
            indent: self.indent.deep_view(),
            name: self.name.deep_view(),
            root: self.root.deep_view(),
        }
    }
}

impl DependencyGraphModel {
    /// Whether the dependencies of each project stand before it.
    pub open spec fn dependencies_first(self) -> bool {
        forall|i: int, k: int|
            0 <= i < self.projects.len() && 0 <= k < self.projects[i].dependency_names.len()
                ==> match lookup(self.index, #[trigger] self.projects[i].dependency_names[k]) {
                Some(j) => j < i,
                None => true,
            }
    }

    /// The lines of the tree below a project: its first `k` dependencies, each followed by what
    /// is below it.
    pub open spec fn tree(self, i: int, indent: Seq<char>, k: int) -> Seq<TreeLineModel>
        decreases i, k,
    {
        let names = self.projects[i].dependency_names;
        if k <= 0 || k > names.len() {
            Seq::empty()
        } else {
            let before = self.tree(i, indent, k - 1);
            let last = k == names.len();
            match lookup(self.index, names[k - 1]) {
                Some(j) if 0 <= j < i => {
                    let project = self.projects[j as int];
                    before.push(
                        TreeLineModel {
                            indent: indent + branch(last),
                            name: project.name,
                            root: project.root,
                        },
                    ) + self.tree(
                        j as int,
                        indent + margin(last),
                        project.dependency_names.len() as int,
                    )
                },
                _ => before,
            }
        }
    }
}

/// What stands before a dependency: a branch, which the last one ends.
pub open spec fn branch(last: bool) -> Seq<char> {
    if last {
        "└── "@
    } else {
        "├── "@
    }
}

/// What stands before everything below a dependency.
pub open spec fn margin(last: bool) -> Seq<char> {
    if last {
        "    "@
    } else {
        "│   "@
    }
}

fn append_lines(lines: &mut Vec<TreeLine>, more: Vec<TreeLine>)
    ensures
        final(lines).deep_view() == old(lines).deep_view() + more.deep_view(),
{
    let ghost start = lines.deep_view();
    let ghost added = more.deep_view();
    let mut rest = more;
    lines.append(&mut rest);
    assert(lines.deep_view() =~= start + added);
}

impl DependencyGraph {
    fn tree_below(&self, i: usize, indent: &str) -> (r: Vec<TreeLine>)
        requires
            self.wf(),
            self.deep_view().dependencies_first(),
            i < self.deep_view().projects.len(),
        ensures
            r.deep_view() == self.deep_view().tree(
                i as int,
                indent@,
                self.deep_view().projects[i as int].dependency_names.len() as int,
            ),
        decreases i,
    {
        let ghost model = self.deep_view();
        let names = &self.projects[i].dependency_names;
        assert(model.projects[i as int] == self.projects@[i as int].deep_view());
        let mut lines: Vec<TreeLine> = Vec::new();
        let mut k: usize = 0;
        assert(lines.deep_view() =~= Seq::empty());
        while k < names.len()
            invariant
                k <= names@.len(),
                model == self.deep_view(),
                self.wf(),
                model.dependencies_first(),
                i < model.projects.len(),
                model.projects[i as int].dependency_names == names.deep_view(),
                lines.deep_view() == model.tree(i as int, indent@, k as int),
            decreases names@.len() - k,
        {
            assert(model.projects[i as int].dependency_names[k as int] == names@[k as int]@);
            let last = k + 1 == names.len();
            let name = names[k].as_str();
            proof {
                lemma_key_index(model.index, name@);
            }
            match self.index.get(name) {
                Some(found) => {
                    let j: usize = *found;
                    assert(lookup(model.index, model.projects[i as int].dependency_names[k as int])
                        == Some(j));
                    assert(model.projects[j as int] == self.projects@[j as int].deep_view());
                    let mut start = indent.to_owned();
                    let mut below = indent.to_owned();
                    if last {
                        start.append("└── ");
                        below.append("    ");
                    } else {
                        start.append("├── ");
                        below.append("│   ");
                    }
                    append_item(
                        &mut lines,
                        TreeLine {
                            indent: start,
                            name: self.projects[j].name.clone(),
                            root: self.projects[j].root.clone(),
                        },
                    );
                    append_lines(&mut lines, self.tree_below(j, below.as_str()));
                },
                None => {},
            }
            k += 1;
        }
        lines
    }

    /// The tree of the dependencies of the root project, line by line.
    pub fn dependency_tree(&self) -> (r: Vec<TreeLine>)
        requires
            self.wf(),
            self.deep_view().dependencies_first(),
            self.deep_view().projects.len() > 0,
        ensures
            r.deep_view() == self.deep_view().tree(
                self.deep_view().projects.len() - 1,
                ""@,
                self.deep_view().projects.last().dependency_names.len() as int,
            ),
    {
        self.tree_below(self.projects.len() - 1, "")
    }
}

// ─── Laws ─────────────────────────────────────────────────────────────────────

/// A project that declares what is public keeps everything else to itself, whatever its
/// subsystems are.
pub proof fn declared_modules_are_public(
    project: ResolvedProjectModel,
    public: Seq<Seq<char>>,
    reference: Seq<char>,
)
    requires
        project.public_modules == Some(public),
    ensures
        project.is_public(reference) <==> listed(public, reference),
{
}

/// Without declarations and subsystems, everything is public.
pub proof fn everything_is_public_otherwise(project: ResolvedProjectModel, reference: Seq<char>)
    requires
        project.public_modules is None,
        project.subsystems.len() == 0,
    ensures
        project.is_public(reference),
{
}

/// Projects are sorted exactly where they do not depend on each other in a cycle.
pub proof fn cycles_are_errors(projects: Seq<ResolvedProjectModel>)
    requires
        projects.len() <= usize::MAX,
    ensures
        graph_of(projects) is Ok <==> graph::acyclic(project_edges(projects)),
{
    lemma_project_edges(projects);
    graph::all_sorted_if_acyclic(project_edges(projects));
}

proof fn lemma_order(projects: Seq<ResolvedProjectModel>)
    requires
        projects.len() <= usize::MAX,
        graph_of(projects) is Ok,
    ensures
        project_order(projects).len() == projects.len(),
        graph::distinct_nodes(project_order(projects), projects.len()),
        forall|i: int|
            0 <= i < projects.len() ==> project_order(projects).contains(#[trigger] (i as usize)),
{
    lemma_project_edges(projects);
    let edges = project_edges(projects);
    let sorted = graph::sorted_nodes(edges);
    let order = project_order(projects);
    graph::sorted_and_cyclic_are_all(edges);
    assert(sorted + graph::cyclic_nodes(edges) =~= sorted);
    assert forall|i: int| 0 <= i < projects.len() implies order.contains(
        #[trigger] (i as usize),
    ) by {
        graph::nodes_are_sorted_or_cyclic(edges, i as usize);
        let p = choose|p: int| 0 <= p < sorted.len() && sorted[p] == i as usize;
        assert(order[sorted.len() - 1 - p] == i as usize);
    }
}

/// Every project is in the graph, and none is there twice.
pub proof fn graphs_hold_all_projects(projects: Seq<ResolvedProjectModel>)
    requires
        projects.len() <= usize::MAX,
    ensures
        graph_of(projects) matches Ok(g) ==> {
            &&& g.projects == in_order(projects, project_order(projects))
            &&& g.projects.len() == projects.len()
            &&& graph::distinct_nodes(project_order(projects), projects.len())
        },
{
    if graph_of(projects) is Ok {
        lemma_order(projects);
    }
}

/// Where the index leads for a name.
proof fn lemma_name_index(
    projects: Seq<ResolvedProjectModel>,
    order: Seq<usize>,
    name: Seq<char>,
    k: int,
)
    requires
        0 <= k <= projects.len(),
    ensures
        lookup(name_index(projects, order, k), name) == (match last_named(projects, name, k) {
            Some(i) => Some(graph::position(order, i, order.len() as int) as usize),
            None => None,
        }),
    decreases k,
{
    if k > 0 {
        lemma_name_index(projects, order, name, k - 1);
        let before = name_index(projects, order, k - 1);
        let value = graph::position(order, k - 1, order.len() as int) as usize;
        if projects[k - 1].name == name {
            crate::data::lookup_after_insert(before, name, value);
        } else {
            crate::data::lookup_of_other_key(before, projects[k - 1].name, value, name);
        }
    }
}

/// The project that a graph gives for a name has that name, and there is one wherever some
/// project has the name.
pub proof fn projects_are_found_by_name(projects: Seq<ResolvedProjectModel>, name: Seq<char>)
    requires
        projects.len() <= usize::MAX,
    ensures
        graph_of(projects) matches Ok(g) ==> match g.project(name) {
            Some(p) => p.name == name && g.projects.contains(p),
            None => forall|i: int| 0 <= i < projects.len() ==> (#[trigger] projects[i]).name != name,
        },
{
    if graph_of(projects) is Ok {
        let n = projects.len() as int;
        let order = project_order(projects);
        let g = graph_of(projects)->Ok_0;
        lemma_order(projects);
        lemma_name_index(projects, order, name, n);
        lemma_last_named(projects, name, n);
        match named(projects, name) {
            Some(i) => {
                assert(order.contains(i as usize));
                let p = choose|p: int| 0 <= p < order.len() && order[p] == i as usize;
                graph::lemma_position(order, p, order.len() as int);
                assert(g.projects[p] == projects[i]);
            },
            None => {},
        }
    }
}

proof fn lemma_target_listed(
    projects: Seq<ResolvedProjectModel>,
    names: Seq<Seq<char>>,
    k: int,
    at: int,
    j: int,
)
    requires
        0 <= at < k <= names.len(),
        projects.len() <= usize::MAX,
        named(projects, names[at]) == Some(j),
    ensures
        graph::count(targets(projects, names, k), j) > 0,
    decreases k,
{
    let now = targets(projects, names, k);
    let before = targets(projects, names, k - 1);
    lemma_last_named(projects, names[k - 1], projects.len() as int);
    if at < k - 1 {
        lemma_target_listed(projects, names, k - 1, at, j);
        if now != before {
            assert(now.drop_last() =~= before);
        }
    } else {
        assert(now.last() == j as usize);
    }
}

/// In a graph the dependencies of each project stand before it.
pub proof fn dependencies_come_first(projects: Seq<ResolvedProjectModel>)
    requires
        projects.len() <= usize::MAX,
    ensures
        graph_of(projects) matches Ok(g) ==> g.dependencies_first(),
{
    if graph_of(projects) is Ok {
        let n = projects.len() as int;
        let edges = project_edges(projects);
        let sorted = graph::sorted_nodes(edges);
        let order = project_order(projects);
        let g = graph_of(projects)->Ok_0;
        lemma_order(projects);
        lemma_project_edges(projects);
        assert forall|i: int, k: int|
            0 <= i < g.projects.len() && 0 <= k < g.projects[i].dependency_names.len()
            implies match lookup(g.index, #[trigger] g.projects[i].dependency_names[k]) {
            Some(j) => j < i,
            None => true,
        } by {
            let consumer = order[i] as int;
            let names = projects[consumer].dependency_names;
            lemma_name_index(projects, order, names[k], n);
            lemma_last_named(projects, names[k], n);
            match named(projects, names[k]) {
                Some(target) => {
                    lemma_target_listed(projects, names, names.len() as int, k, target);
                    assert(graph::has_edge(edges, consumer, target));
                    assert(order.contains(target as usize));
                    let q = choose|q: int| 0 <= q < order.len() && order[q] == target as usize;
                    graph::lemma_position(order, q, order.len() as int);
                    let p = n - 1 - q;
                    assert(sorted[p] == target as usize);
                    assert(graph::has_edge(edges, consumer, sorted[p] as int));
                    graph::sources_come_first(edges, consumer, p);
                    let s = choose|s: int| 0 <= s < p && #[trigger] sorted[s] == consumer;
                    assert(order[n - 1 - s] == consumer as usize);
                    assert(n - 1 - s == i);
                },
                None => {},
            }
        }
    }
}

/// Whether each project but the first is a dependency of an earlier one.
pub open spec fn reached(projects: Seq<ResolvedProjectModel>) -> bool {
    forall|k: int|
        0 < k < projects.len() ==> exists|p: int|
            0 <= p < k && #[trigger] projects[p].dependency_names.contains(
                (#[trigger] projects[k]).name,
            )
}

/// Whether no two projects have the same name.
pub open spec fn names_unique(projects: Seq<ResolvedProjectModel>) -> bool {
    forall|i: int, j: int|
        0 <= i < j < projects.len() ==> (#[trigger] projects[i]).name != (
        #[trigger] projects[j]).name
}

/// The project that others are gathered from stands last in the graph.
pub proof fn root_comes_last(projects: Seq<ResolvedProjectModel>)
    requires
        0 < projects.len() <= usize::MAX,
        names_unique(projects),
        reached(projects),
    ensures
        graph_of(projects) matches Ok(g) ==> g.projects.last() == projects[0],
{
    if graph_of(projects) is Ok {
        let n = projects.len() as int;
        let edges = project_edges(projects);
        let sorted = graph::sorted_nodes(edges);
        lemma_project_edges(projects);
        lemma_order(projects);
        cycles_are_errors(projects);
        let rank = choose|rank: spec_fn(int) -> nat| #[trigger] graph::ranks(edges, rank);
        assert forall|i: int| !graph::has_edge(edges, i, 0) by {
            if graph::has_edge(edges, i, 0) {
                lemma_rank_rises(projects, rank, i);
                assert(rank(i) < rank(0));
            }
        }
        graph::first_free_node(edges);
        assert(project_order(projects)[n - 1] == sorted[0]);
    }
}

/// Ranks rise from the first project on.
proof fn lemma_rank_rises(
    projects: Seq<ResolvedProjectModel>,
    rank: spec_fn(int) -> nat,
    k: int,
)
    requires
        0 <= k < projects.len() <= usize::MAX,
        names_unique(projects),
        reached(projects),
        graph::ranks(project_edges(projects), rank),
    ensures
        rank(k) >= rank(0),
    decreases k,
{
    if k > 0 {
        let name = projects[k].name;
        let p = choose|p: int|
            0 <= p < k && #[trigger] projects[p].dependency_names.contains(name);
        let names = projects[p].dependency_names;
        let at = choose|at: int| 0 <= at < names.len() && names[at] == name;
        lemma_last_named(projects, name, projects.len() as int);
        assert(projects[k].name == name);
        assert(named(projects, name) == Some(k));
        lemma_target_listed(projects, names, names.len() as int, at, k);
        assert(graph::has_edge(project_edges(projects), p, k));
        lemma_rank_rises(projects, rank, p);
    }
}

/// What holds while projects are gathered: they are at different places; each but the first is
/// a dependency of an earlier one; and the dependencies of each are gathered, or about to be.
pub open spec fn gathering_state(
    tasks: Seq<TaskModel>,
    projects: Seq<ResolvedProjectModel>,
) -> bool {
    &&& roots(projects).no_duplicates()
    &&& reached(projects)
    &&& projects.len() == 0 ==> tasks.len() == 1
    &&& forall|t: int|
        0 <= t < tasks.len() ==> match #[trigger] tasks[t] {
            TaskModel::Start(_) => projects.len() == 0,
            TaskModel::Visit(d) => wanted(projects, d.name),
            TaskModel::Finish(_) => projects.len() > 0,
        }
    &&& forall|p: int, k: int|
        0 <= p < projects.len() && 0 <= k < projects[p].dependency_names.len() ==> arrived(
            projects,
            #[trigger] projects[p].dependency_names[k],
        ) || awaited(tasks, projects[p].dependency_names[k])
}

/// Whether some project has a dependency of that name.
pub open spec fn wanted(projects: Seq<ResolvedProjectModel>, name: Seq<char>) -> bool {
    exists|p: int|
        0 <= p < projects.len() && #[trigger] projects[p].dependency_names.contains(name)
}

/// Whether some project has that name.
pub open spec fn arrived(projects: Seq<ResolvedProjectModel>, name: Seq<char>) -> bool {
    exists|p: int| 0 <= p < projects.len() && (#[trigger] projects[p]).name == name
}

/// Whether a dependency of that name is about to be visited.
pub open spec fn awaited(tasks: Seq<TaskModel>, name: Seq<char>) -> bool {
    exists|t: int| 0 <= t < tasks.len() && visits(#[trigger] tasks[t], name)
}

pub open spec fn visits(task: TaskModel, name: Seq<char>) -> bool {
    task matches TaskModel::Visit(d) && d.name == name
}

proof fn lemma_gathering(
    loaded: Seq<(Seq<char>, LoadedProjectModel)>,
    tasks: Seq<TaskModel>,
    projects: Seq<ResolvedProjectModel>,
)
    requires
        gathering_state(tasks, projects),
    ensures
        gathering(loaded, tasks, projects) matches Gathering::Done(all) ==> gathering_state(
            Seq::empty(),
            all,
        ) && all.len() > 0,
    decreases unvisited(loaded, projects, loaded.len() as int), tasks.len(),
{
    if tasks.len() > 0 {
        let task = tasks.last();
        let rest = tasks.drop_last();
        let (root, expected) = visited_place(task);
        if task_error(task) is None {
            if task is Finish {
                lemma_task_done(tasks, projects);
                lemma_gathering(loaded, rest, projects);
            } else {
                lemma_project_at(projects, root, projects.len() as int);
                match visiting(loaded, projects, root, expected) {
                    Visiting::Known => {
                        lemma_task_done(tasks, projects);
                        lemma_gathering(loaded, rest, projects);
                    },
                    Visiting::New(l) => {
                        lemma_visit(loaded, projects, root, l);
                        lemma_new_project(tasks, projects, root, l);
                        lemma_gathering(
                            loaded,
                            rest + project_tasks(l),
                            projects.push(l.resolved(root)),
                        );
                    },
                    _ => {},
                }
            }
        }
    } else {
        assert(tasks =~= Seq::empty());
    }
}

proof fn lemma_task_done(tasks: Seq<TaskModel>, projects: Seq<ResolvedProjectModel>)
    requires
        gathering_state(tasks, projects),
        tasks.len() > 0,
        projects.len() > 0,
        tasks.last() matches TaskModel::Visit(d) ==> arrived(projects, d.name),
    ensures
        gathering_state(tasks.drop_last(), projects),
{
    let rest = tasks.drop_last();
    assert forall|p: int, k: int|
        0 <= p < projects.len() && 0 <= k < projects[p].dependency_names.len() implies arrived(
        projects,
        #[trigger] projects[p].dependency_names[k],
    ) || awaited(rest, projects[p].dependency_names[k]) by {
        let name = projects[p].dependency_names[k];
        if !arrived(projects, name) {
            let t = choose|t: int| 0 <= t < tasks.len() && visits(#[trigger] tasks[t], name);
            assert(rest[t] == tasks[t]);
        }
    }
}

proof fn lemma_new_project(
    tasks: Seq<TaskModel>,
    projects: Seq<ResolvedProjectModel>,
    root: Seq<char>,
    l: LoadedProjectModel,
)
    requires
        gathering_state(tasks, projects),
        tasks.len() > 0,
        tasks.last() matches TaskModel::Visit(d) ==> l.project_name() == d.name,
        !(tasks.last() is Finish),
        forall|i: int| 0 <= i < projects.len() ==> (#[trigger] projects[i]).root != root,
    ensures
        gathering_state(tasks.drop_last() + project_tasks(l), projects.push(l.resolved(root))),
{
    let rest = tasks.drop_last();
    let more = project_tasks(l);
    let now = rest + more;
    let project = l.resolved(root);
    let all = projects.push(project);
    let n = projects.len() as int;
    assert(all[n] == project);
    assert forall|i: int, j: int| 0 <= i < all.len() && 0 <= j < all.len() && i != j implies roots(
        all,
    )[i] != roots(all)[j] by {
        if i < n && j < n {
            assert(roots(projects)[i] != roots(projects)[j]);
        }
    }
    assert forall|k: int| 0 < k < all.len() implies exists|p: int|
        0 <= p < k && #[trigger] all[p].dependency_names.contains((#[trigger] all[k]).name) by {
        if k < n {
            let p = choose|p: int|
                0 <= p < k && #[trigger] projects[p].dependency_names.contains(projects[k].name);
            assert(all[p].dependency_names.contains(all[k].name));
        } else {
            assert(tasks[tasks.len() - 1] is Visit);
            let p = choose|p: int|
                0 <= p < n && #[trigger] projects[p].dependency_names.contains(project.name);
            assert(all[p].dependency_names.contains(all[k].name));
        }
    }
    assert forall|t: int| 0 <= t < now.len() implies match #[trigger] now[t] {
        TaskModel::Start(_) => all.len() == 0,
        TaskModel::Visit(d) => wanted(all, d.name),
        TaskModel::Finish(_) => all.len() > 0,
    } by {
        if t < rest.len() {
            assert(now[t] == tasks[t]);
            match tasks[t] {
                TaskModel::Visit(d) => {
                    let p = choose|p: int|
                        0 <= p < n && #[trigger] projects[p].dependency_names.contains(d.name);
                    assert(all[p].dependency_names.contains(d.name));
                },
                _ => {},
            }
        } else {
            let at = t - rest.len();
            assert(now[t] == more[at]);
            if at > 0 {
                let i = l.dependencies.len() - 1 - (at - 1);
                assert(l.dependency_names()[i] == l.dependencies[i].name);
                assert(all[n].dependency_names.contains(l.dependencies[i].name));
            }
        }
    }
    assert forall|p: int, k: int|
        0 <= p < all.len() && 0 <= k < all[p].dependency_names.len() implies arrived(
        all,
        #[trigger] all[p].dependency_names[k],
    ) || awaited(now, all[p].dependency_names[k]) by {
        let name = all[p].dependency_names[k];
        if p < n {
            assert(projects[p].dependency_names[k] == name);
            if arrived(projects, name) {
                let q = choose|q: int| 0 <= q < n && (#[trigger] projects[q]).name == name;
                assert(all[q].name == name);
            } else {
                let t = choose|t: int| 0 <= t < tasks.len() && visits(#[trigger] tasks[t], name);
                if t < rest.len() {
                    assert(now[t] == tasks[t]);
                } else {
                    assert(all[n].name == name);
                }
            }
        } else {
            let m = l.dependencies.len();
            let at = 1 + (m - 1 - k);
            assert(more[at] == TaskModel::Visit(l.dependencies[k]));
            assert(now[rest.len() + at] == more[at]);
            assert(visits(now[rest.len() + at], name));
        }
    }
}

/// Every project is gathered once, however many others depend on it; every dependency that a
/// project declares is gathered under the name by which it is declared; and the project that
/// others are gathered from comes first.
pub proof fn gathered_projects_are_complete(
    loaded: Seq<(Seq<char>, LoadedProjectModel)>,
    root: Seq<char>,
)
    ensures
        gathered_from(loaded, root) matches Gathering::Done(projects) ==> {
            &&& projects.len() > 0
            &&& projects[0].root == root
            &&& roots(projects).no_duplicates()
            &&& reached(projects)
            &&& forall|p: int, k: int|
                0 <= p < projects.len() && 0 <= k < projects[p].dependency_names.len() ==> arrived(
                    projects,
                    #[trigger] projects[p].dependency_names[k],
                )
        },
{
    let tasks = seq![TaskModel::Start(root)];
    lemma_gathering(loaded, tasks, Seq::empty());
    if gathered_from(loaded, root) is Done {
        let projects = gathered_from(loaded, root)->Done_0;
        let l = lookup(loaded, root)->Some_0;
        assert(project_at(Seq::empty(), root, 0) is None);
        let rest = tasks.drop_last() + project_tasks(l);
        let first = Seq::<ResolvedProjectModel>::empty().push(l.resolved(root));
        assert(gathered_from(loaded, root) == gathering(loaded, rest, first));
        lemma_first_stays(loaded, rest, first);
        assert forall|p: int, k: int|
            0 <= p < projects.len() && 0 <= k < projects[p].dependency_names.len() implies arrived(
            projects,
            #[trigger] projects[p].dependency_names[k],
        ) by {
            assert(!awaited(Seq::empty(), projects[p].dependency_names[k]));
        }
    }
}

proof fn lemma_first_stays(
    loaded: Seq<(Seq<char>, LoadedProjectModel)>,
    tasks: Seq<TaskModel>,
    projects: Seq<ResolvedProjectModel>,
)
    requires
        projects.len() > 0,
    ensures
        gathering(loaded, tasks, projects) matches Gathering::Done(all) ==> all.len() > 0
            && all[0] == projects[0],
    decreases unvisited(loaded, projects, loaded.len() as int), tasks.len(),
{
    if tasks.len() > 0 {
        let task = tasks.last();
        let rest = tasks.drop_last();
        let (root, expected) = visited_place(task);
        if task_error(task) is None {
            if task is Finish {
                lemma_first_stays(loaded, rest, projects);
            } else {
                match visiting(loaded, projects, root, expected) {
                    Visiting::Known => {
                        lemma_first_stays(loaded, rest, projects);
                    },
                    Visiting::New(l) => {
                        lemma_visit(loaded, projects, root, l);
                        lemma_first_stays(
                            loaded,
                            rest + project_tasks(l),
                            projects.push(l.resolved(root)),
                        );
                    },
                    _ => {},
                }
            }
        }
    }
}


} // verus!

//! How projects refer to each other, and what they offer.
use vstd::prelude::*;

use crate::checker::module_name_of;
use crate::dependency::{
    cross_ref, listed, visiting, DependencyGraphModel, LoadedProjectModel, ResolvedProjectModel,
    Visiting,
};
use crate::data::lookup;
use crate::text;

verus! {

proof fn lemma_find(s: Seq<char>, from: int, k: int)
    requires
        0 <= from <= k,
        text::occurs_at(s, "::"@, k),
        forall|j: int| from <= j < k ==> !text::occurs_at(s, "::"@, j),
    ensures
        text::find_from(s, "::"@, from) == Some(k),
    decreases k - from,
{
    if from < k {
        assert(!text::occurs_at(s, "::"@, from));
        lemma_find(s, from + 1, k);
    }
}

/// A reference to a module of another project is taken apart at the first two colons.
pub proof fn references_name_project_and_module(project: Seq<char>, local: Seq<char>)
    requires
        text::lacks(project, ':'),
    ensures
        cross_ref(project + "::"@ + local) == Some((project, local)),
{
    reveal_strlit("::");
    let s = project + "::"@ + local;
    let n = project.len() as int;
    assert(s.subrange(n, n + 2) =~= "::"@);
    assert(text::occurs_at(s, "::"@, n));
    assert forall|j: int| 0 <= j < n implies !text::occurs_at(s, "::"@, j) by {
        if text::occurs_at(s, "::"@, j) {
            assert(s.subrange(j, j + 2)[0] == "::"@[0]);
            assert(s[j] == project[j]);
        }
    }
    lemma_find(s, 0, n);
    assert(s.take(n) =~= project);
    assert(s.skip(n + 2) =~= local);
}

proof fn lemma_no_colons(s: Seq<char>, from: int)
    requires
        0 <= from,
        text::lacks(s, ':'),
    ensures
        text::find_from(s, "::"@, from) is None,
    decreases s.len() + 1 - from,
{
    reveal_strlit("::");
    if from <= s.len() {
        if text::occurs_at(s, "::"@, from) {
            assert(s.subrange(from, from + 2)[0] == "::"@[0]);
            assert(s[from] == ':');
        }
        lemma_no_colons(s, from + 1);
    }
}

/// A reference without colons is one to the project itself.
pub proof fn plain_references_stay_inside(reference: Seq<char>)
    requires
        text::lacks(reference, ':'),
    ensures
        cross_ref(reference) is None,
{
    lemma_no_colons(reference, 0);
}

/// A project offers the modules that it declares as public, by path or by name; without such a
/// declaration those of its subsystems; and without subsystems all.
pub proof fn projects_offer_public_modules(project: ResolvedProjectModel, reference: Seq<char>)
    ensures
        project.public_modules matches Some(public) ==> (project.is_public(reference) <==> exists|
            i: int,
        |
            0 <= i < public.len() && (#[trigger] public[i] == reference || module_name_of(public[i])
                == reference)),
        project.public_modules is None && project.subsystems.len() > 0 ==> (project.is_public(
            reference,
        ) <==> exists|i: int, k: int| #[trigger] holds(project, i, k, reference)),
        project.public_modules is None && project.subsystems.len() == 0 ==> project.is_public(
            reference,
        ),
{
    if let Some(public) = project.public_modules {
        if listed(public, reference) {
            let i = choose|i: int|
                0 <= i < public.len() && crate::dependency::refers_to(reference, #[trigger] public[i]);
            assert(public[i] == reference || module_name_of(public[i]) == reference);
        }
        if exists|i: int|
            0 <= i < public.len() && (#[trigger] public[i] == reference || module_name_of(public[i])
                == reference) {
            let i = choose|i: int|
                0 <= i < public.len() && (#[trigger] public[i] == reference || module_name_of(
                    public[i],
                ) == reference);
            assert(crate::dependency::refers_to(reference, public[i]));
        }
    } else if project.subsystems.len() > 0 {
        if project.is_public(reference) {
            let i = choose|i: int|
                0 <= i < project.subsystems.len() && listed(
                    (#[trigger] project.subsystems[i]).modules,
                    reference,
                );
            let k = choose|k: int|
                0 <= k < project.subsystems[i].modules.len() && crate::dependency::refers_to(
                    reference,
                    #[trigger] project.subsystems[i].modules[k],
                );
            assert(holds(project, i, k, reference));
        }
        if exists|i: int, k: int| #[trigger] holds(project, i, k, reference) {
            let (i, k) = choose|i: int, k: int| #[trigger] holds(project, i, k, reference);
            assert(crate::dependency::refers_to(reference, project.subsystems[i].modules[k]));
            assert(listed(project.subsystems[i].modules, reference));
        }
    }
}

/// Whether a reference is that of a module of a subsystem, by path or by name.
pub open spec fn holds(
    project: ResolvedProjectModel,
    i: int,
    k: int,
    reference: Seq<char>,
) -> bool {
    &&& 0 <= i < project.subsystems.len()
    &&& 0 <= k < project.subsystems[i].modules.len()
    &&& project.subsystems[i].modules[k] == reference || module_name_of(
        project.subsystems[i].modules[k],
    ) == reference
}

/// A project is called as it says, or else like its directory; it is resolved with all that it
/// holds.
pub proof fn projects_have_names(p: LoadedProjectModel, root: Seq<char>, i: int)
    ensures
        p.name matches Some(n) ==> p.resolved(root).name == n,
        p.name is None ==> (p.dir_name matches Some(d) ==> p.resolved(root).name == d),
        p.resolved(root).root == root,
        p.resolved(root).specs == p.specs,
        p.resolved(root).subsystems == p.subsystems,
        p.resolved(root).public_modules == p.public_modules,
        p.resolved(root).dependency_names.len() == p.dependencies.len(),
        0 <= i < p.dependencies.len() ==> p.resolved(root).dependency_names[i]
            == p.dependencies[i].name,
{
}

/// A project that is expected under another name than its own is an error, whether it was met
/// before or not; one without an expected name never is.
pub proof fn names_are_checked(
    loaded: Seq<(Seq<char>, LoadedProjectModel)>,
    root: Seq<char>,
    expected: Seq<char>,
    l: LoadedProjectModel,
)
    requires
        lookup(loaded, root) == Some(l),
    ensures
        visiting(loaded, Seq::empty(), root, None) == Visiting::New(l),
        l.project_name() == expected ==> visiting(loaded, Seq::empty(), root, Some(expected))
            == Visiting::New(l),
        l.project_name() != expected ==> visiting(
            loaded,
            Seq::empty(),
            root,
            Some(expected),
        ) is Failed,
        visiting(loaded, seq![l.resolved(root)], root, None) == Visiting::Known,
        l.project_name() == expected ==> visiting(
            loaded,
            seq![l.resolved(root)],
            root,
            Some(expected),
        ) == Visiting::Known,
        l.project_name() != expected ==> visiting(
            loaded,
            seq![l.resolved(root)],
            root,
            Some(expected),
        ) is Failed,
{
    reveal_with_fuel(crate::dependency::project_at, 3);
}

/// The tree of a project lists each of its dependencies by name and place, with what is below
/// each.
pub proof fn trees_list_dependencies(
    g: DependencyGraphModel,
    i: int,
    indent: Seq<char>,
    k: int,
    j: usize,
)
    requires
        0 <= i < g.projects.len(),
        0 < k <= g.projects[i].dependency_names.len(),
        lookup(g.index, g.projects[i].dependency_names[k - 1]) == Some(j),
        j < i,
    ensures
        ({
            let before = g.tree(i, indent, k - 1);
            let now = g.tree(i, indent, k);
            let p = g.projects[j as int];
            &&& before.len() < now.len()
            &&& now[before.len() as int].name == p.name
            &&& now[before.len() as int].root == p.root
        }),
{
}

} // verus!

//! The order in which source files are described: each behind those that it refers to.
use vstd::prelude::*;

use crate::data::{
    add_names, append_item, lookup, with_distinct_names, with_entry, with_names,
    with_names_is_union, StringMap,
};
use crate::graph;
use crate::text;

verus! {

// ─── References between modules ───────────────────────────────────────────────

/// Whether all characters of a text are those of words, and there are any.
pub open spec fn is_word_text(s: Seq<char>) -> bool {
    &&& s.len() > 0
    &&& forall|i: int| 0 <= i < s.len() ==> text::is_word(#[trigger] s[i])
}

/// Whether a text can name a module: a word other than `self`, or a raw identifier.
pub open spec fn is_module_name(name: Seq<char>) -> bool {
    ||| is_word_text(name) && name != "self"@
    ||| text::starts_with(name, "r#"@) && is_word_text(name.skip(2))
}

/// Where the name that starts at a position ends: a word, or a raw identifier.
pub open spec fn name_end(s: Seq<char>, i: int) -> int {
    if text::occurs_at(s, "r#"@, i) && i + 2 < s.len() && text::is_word(s[i + 2]) {
        text::word_end(s, i + 2)
    } else {
        text::word_end(s, i)
    }
}

/// The name that starts at a position, if it can name a module.
pub open spec fn named_at(s: Seq<char>, i: int) -> Seq<Seq<char>> {
    let name = s.subrange(i, name_end(s, i));
    if name.len() == 0 || name == "self"@ {
        Seq::empty()
    } else {
        seq![name]
    }
}

/// The modules that a list in braces names from position `i` on, where `depth` more braces are
/// open: the first name of each member. The list ends with its brace, or with the statement.
pub open spec fn listed(s: Seq<char>, i: int, depth: nat, fresh: bool) -> Seq<Seq<char>>
    decreases s.len() - i,
{
    if i < 0 || i >= s.len() || s[i] == ';' {
        Seq::empty()
    } else if s[i] == '{' {
        listed(s, i + 1, depth + 1, false)
    } else if s[i] == '}' {
        if depth == 0 {
            Seq::empty()
        } else {
            listed(s, i + 1, (depth - 1) as nat, false)
        }
    } else if s[i] == ',' {
        listed(s, i + 1, depth, depth == 0)
    } else if text::is_whitespace(s[i]) {
        listed(s, i + 1, depth, fresh)
    } else if fresh {
        named_at(s, i) + listed(s, i + 1, depth, false)
    } else {
        listed(s, i + 1, depth, false)
    }
}

/// The modules that are named behind a `crate::`, from position `i` on: one, or those of a
/// list. Blanks may stand before them.
pub open spec fn named_behind(s: Seq<char>, i: int) -> Seq<Seq<char>> {
    let p = text::spaces_end(s, i);
    if 0 <= p < s.len() && s[p] == '{' {
        listed(s, p + 1, 0, true)
    } else {
        named_at(s, p)
    }
}

/// The modules that are named behind each `crate::` from a position on.
pub open spec fn references(s: Seq<char>, from: int) -> Seq<Seq<char>>
    decreases s.len() - from,
{
    match text::find_from(s, "crate::"@, from) {
        Some(i) if 0 <= from <= i && i + 7 <= s.len() => named_behind(s, i + 7) + references(
            s,
            i + 7,
        ),
        _ => Seq::empty(),
    }
}

/// The modules of the same crate that a source text refers to, each once.
pub open spec fn internal_deps(source: Seq<char>) -> Seq<Seq<char>> {
    with_names(Seq::empty(), references(source, 0))
}

fn add_named(s: &[char], i: usize, names: &mut Vec<String>)
    requires
        i <= s@.len(),
    ensures
        final(names).deep_view() == old(names).deep_view() + named_at(s@, i as int),
{
    let ghost before = names.deep_view();
    proof {
        reveal_strlit("r#");
    }
    let n: usize = s.len();
    let raw = text::literal_at(s, "r#", i) && n - i > 2 && text::word_char(s[i + 2]);
    let end = if raw {
        text::skip_word(s, i + 2)
    } else {
        text::skip_word(s, i)
    };
    let name = text::piece(s, i, end);
    assert(name@ == s@.subrange(i as int, name_end(s@, i as int)));
    if !name.as_str().is_empty() && !text::same(name.as_str(), "self") {
        append_item(names, name);
    }
    assert(names.deep_view() =~= before + named_at(s@, i as int));
}

fn add_listed(s: &[char], from: usize, names: &mut Vec<String>)
    requires
        from <= s@.len(),
    ensures
        final(names).deep_view() == old(names).deep_view() + listed(s@, from as int, 0, true),
{
    let ghost before = names.deep_view();
    let ghost all = before + listed(s@, from as int, 0, true);
    let mut depth: usize = 0;
    let mut fresh: bool = true;
    let mut i: usize = from;
    while i < s.len()
        invariant
            from <= i <= s@.len(),
            depth <= i - from,
            all == names.deep_view() + listed(s@, i as int, depth as nat, fresh),
        ensures
            all == names.deep_view(),
        decreases s@.len() - i,
    {
        let c = s[i];
        let ghost done = names.deep_view();
        if c == ';' || (c == '}' && depth == 0) {
            assert(done + Seq::<Seq<char>>::empty() =~= done);
            break;
        } else if c == '{' {
            depth += 1;
            fresh = false;
        } else if c == '}' {
            depth -= 1;
            fresh = false;
        } else if c == ',' {
            fresh = depth == 0;
        } else if !text::whitespace(c) {
            if fresh {
                add_named(s, i, names);
                assert(done + (named_at(s@, i as int) + listed(
                    s@,
                    i + 1,
                    depth as nat,
                    false,
                )) =~= names.deep_view() + listed(s@, i + 1, depth as nat, false));
            }
            fresh = false;
        }
        i += 1;
        proof {
            if i == s@.len() {
                assert(names.deep_view() + Seq::<Seq<char>>::empty() =~= names.deep_view());
            }
        }
    }
    proof {
        if i == s@.len() {
            assert(names.deep_view() + Seq::<Seq<char>>::empty() =~= names.deep_view());
        }
    }
}

/// Lists the modules of the same crate that a source text refers to, behind `use crate::` or
/// elsewhere behind `crate::`.
pub fn extract_internal_deps(source_code: &str) -> (r: Vec<String>)
    ensures
        r.deep_view() == internal_deps(source_code@),
        r.deep_view().no_duplicates(),
        forall|i: int| 0 <= i < r@.len() ==> is_module_name(#[trigger] r.deep_view()[i]),
{
    proof {
        reveal_strlit("crate::");
        references_are_module_names(source_code@);
    }
    let chars = text::chars_of(source_code);
    let s = chars.as_slice();
    let n: usize = s.len();
    let word = text::chars_of("crate::");
    let mut names: Vec<String> = Vec::new();
    let mut from: usize = 0;
    assert(names.deep_view() + references(s@, 0) =~= references(s@, 0));
    loop
        invariant
            from <= n == s@.len(),
            word@ == "crate::"@,
            "crate::"@.len() == 7,
            references(s@, 0) == names.deep_view() + references(s@, from as int),
        ensures
            references(s@, 0) == names.deep_view(),
        decreases s@.len() - from,
    {
        let ghost done = names.deep_view();
        match text::find_chars_from(s, word.as_slice(), from) {
            Some(i) => {
                let next: usize = i + 7;
                let p = text::skip_spaces(s, next);
                if p < n && s[p] == '{' {
                    add_listed(s, p + 1, &mut names);
                } else {
                    add_named(s, p, &mut names);
                }
                assert(done + (named_behind(s@, next as int) + references(s@, next as int))
                    =~= names.deep_view() + references(s@, next as int));
                from = next;
            },
            None => {
                assert(done + Seq::<Seq<char>>::empty() =~= done);
                break;
            },
        }
    }
    let mut deps: Vec<String> = Vec::new();
    assert(deps.deep_view() =~= Seq::empty());
    add_names(&mut deps, &names);
    deps
}

// ─── The order of files ───────────────────────────────────────────────────────

/// A source file: the name of the file without its extension, the name of its directory, and
/// its text.
#[derive(Debug)]
pub struct SourceEntry {
    pub stem: Option<String>,
    pub parent: Option<String>,
    pub source: String,
}

/// What a [`SourceEntry`] holds.
#[verifier::ext_equal]
pub struct SourceEntryModel {
    pub stem: Option<Seq<char>>,
    pub parent: Option<Seq<char>>,
    pub source: Seq<char>,
}

impl DeepView for SourceEntry {
    type V = SourceEntryModel;

    open spec fn deep_view(&self) -> SourceEntryModel {
        SourceEntryModel {
            stem: self.stem.deep_view(),
            parent: self.parent.deep_view(),
            source: self.source@,
        }
    }
}

/// The index of files by the names of their modules, with one more file. The module of a file
/// `mod` also has the name of its directory.
pub open spec fn with_file(
    index: Seq<(Seq<char>, usize)>,
    file: SourceEntryModel,
    i: usize,
) -> Seq<(Seq<char>, usize)> {
    match file.stem {
        Some(stem) => {
            let by_stem = with_entry(index, stem, i);
            match file.parent {
                Some(parent) if stem == "mod"@ => with_entry(by_stem, parent, i),
                _ => by_stem,
            }
        },
        None => index,
    }
}

/// The index of the first `k` files.
pub open spec fn file_index(files: Seq<SourceEntryModel>, k: int) -> Seq<(Seq<char>, usize)>
    decreases k,
{
    if k <= 0 || k > files.len() {
        Seq::empty()
    } else {
        with_file(file_index(files, k - 1), files[k - 1], (k - 1) as usize)
    }
}

/// The files, other than file `i` itself, that the first `k` names stand for.
pub open spec fn other_files(
    index: Seq<(Seq<char>, usize)>,
    names: Seq<Seq<char>>,
    i: int,
    k: int,
) -> Seq<usize>
    decreases k,
{
    if k <= 0 || k > names.len() {
        Seq::empty()
    } else {
        match lookup(index, names[k - 1]) {
            Some(j) if j != i => other_files(index, names, i, k - 1).push(j),
            _ => other_files(index, names, i, k - 1),
        }
    }
}

/// The other files that each file refers to.
pub open spec fn file_targets(files: Seq<SourceEntryModel>) -> Seq<Seq<usize>> {
    let index = file_index(files, files.len() as int);
    Seq::new(
        files.len(),
        |i: int|
            {
                let names = internal_deps(files[i].source);
                other_files(index, names, i, names.len() as int)
            },
    )
}

/// Node `i`, as often as it is listed that an edge leads from it to `j` among the first `k`.
pub open spec fn back_edges(targets: Seq<usize>, i: int, j: int, k: int) -> Seq<usize>
    decreases k,
{
    if k <= 0 || k > targets.len() {
        Seq::empty()
    } else if targets[k - 1] == j {
        back_edges(targets, i, j, k - 1).push(i as usize)
    } else {
        back_edges(targets, i, j, k - 1)
    }
}

/// The first `k` nodes from which edges lead to `j`.
pub open spec fn sources(edges: Seq<Seq<usize>>, j: int, k: int) -> Seq<usize>
    decreases k,
{
    if k <= 0 || k > edges.len() {
        Seq::empty()
    } else {
        sources(edges, j, k - 1) + back_edges(edges[k - 1], k - 1, j, edges[k - 1].len() as int)
    }
}

/// A graph with all edges turned round.
pub open spec fn reversed(edges: Seq<Seq<usize>>) -> Seq<Seq<usize>> {
    Seq::new(edges.len(), |j: int| sources(edges, j, edges.len() as int))
}

/// The order of files: each behind those that it refers to. Files on a cycle, and those that
/// refer to them, come last, in the order in which they are given.
pub open spec fn file_order(files: Seq<SourceEntryModel>) -> Seq<usize> {
    let edges = reversed(file_targets(files));
    graph::sorted_nodes(edges) + graph::cyclic_nodes(edges)
}

proof fn lemma_back_edges(targets: Seq<usize>, i: int, j: int, k: int)
    requires
        0 <= i <= usize::MAX,
        0 <= k <= targets.len(),
    ensures
        forall|p: int|
            0 <= p < back_edges(targets, i, j, k).len() ==> (#[trigger] back_edges(
                targets,
                i,
                j,
                k,
            )[p]) == i,
        back_edges(targets, i, j, k).len() > 0 <==> exists|p: int|
            0 <= p < k && #[trigger] targets[p] == j,
    decreases k,
{
    if k > 0 {
        lemma_back_edges(targets, i, j, k - 1);
        if exists|p: int| 0 <= p < k - 1 && #[trigger] targets[p] == j {
            let p = choose|p: int| 0 <= p < k - 1 && #[trigger] targets[p] == j;
            assert(targets[p] == j);
        }
        if targets[k - 1] == j {
            assert(targets[k - 1] == j);
        }
    }
}

proof fn lemma_sources(edges: Seq<Seq<usize>>, j: int, k: int)
    requires
        0 <= k <= edges.len() <= usize::MAX,
    ensures
        forall|p: int| 0 <= p < sources(edges, j, k).len() ==> (#[trigger] sources(edges, j, k)[p])
            < k,
        forall|i: int|
            0 <= i < k ==> (sources(edges, j, k).contains(#[trigger] (i as usize)) <==> exists|
                p: int,
            | 0 <= p < edges[i].len() && #[trigger] edges[i][p] == j),
    decreases k,
{
    if k > 0 {
        lemma_sources(edges, j, k - 1);
        let before = sources(edges, j, k - 1);
        let last = back_edges(edges[k - 1], k - 1, j, edges[k - 1].len() as int);
        let now = sources(edges, j, k);
        lemma_back_edges(edges[k - 1], k - 1, j, edges[k - 1].len() as int);
        assert forall|p: int| 0 <= p < now.len() implies (#[trigger] now[p]) < k by {
            if p < before.len() {
                assert(now[p] == before[p]);
            } else {
                assert(now[p] == last[p - before.len()]);
            }
        }
        assert forall|i: int| 0 <= i < k implies (now.contains(#[trigger] (i as usize)) <==> exists|
            p: int,
        | 0 <= p < edges[i].len() && #[trigger] edges[i][p] == j) by {
            let node = i as usize;
            if i < k - 1 {
                assert(before.contains(node) <==> exists|p: int|
                    0 <= p < edges[i].len() && #[trigger] edges[i][p] == j);
                if before.contains(node) {
                    let p = choose|p: int| 0 <= p < before.len() && before[p] == node;
                    assert(now[p] == node);
                }
                if now.contains(node) {
                    let p = choose|p: int| 0 <= p < now.len() && now[p] == node;
                    if p >= before.len() {
                        assert(now[p] == last[p - before.len()]);
                    } else {
                        assert(before[p] == node);
                    }
                }
            } else {
                if last.len() > 0 {
                    assert(last[0] == k - 1);
                    assert(now[before.len() as int] == node);
                }
                if now.contains(node) {
                    let p = choose|p: int| 0 <= p < now.len() && now[p] == node;
                    if p < before.len() {
                        assert(before[p] < k - 1);
                    }
                }
            }
        }
    }
}

/// Turning edges round gives a graph.
proof fn lemma_reversed(edges: Seq<Seq<usize>>)
    requires
        edges.len() <= usize::MAX,
    ensures
        graph::is_graph(reversed(edges)),
{
    let r = reversed(edges);
    assert forall|i: int, k: int| 0 <= i < r.len() && 0 <= k < r[i].len() implies (
    #[trigger] r[i][k]) < r.len() by {
        lemma_sources(edges, i, edges.len() as int);
    }
}

fn index_files(files: &[SourceEntry]) -> (r: StringMap<usize>)
    ensures
        r.deep_view() == file_index(files.deep_view(), files@.len() as int),
{
    let ghost all = files.deep_view();
    let mut index: StringMap<usize> = StringMap::new();
    let mut i: usize = 0;
    while i < files.len()
        invariant
            i <= files@.len(),
            all == files.deep_view(),
            index.deep_view() == file_index(all, i as int),
        decreases files@.len() - i,
    {
        assert(all[i as int] == files@[i as int].deep_view());
        match &files[i].stem {
            Some(stem) => {
                index.insert(stem.clone(), i);
                match &files[i].parent {
                    Some(parent) => {
                        if text::same(stem.as_str(), "mod") {
                            index.insert(parent.clone(), i);
                        }
                    },
                    None => {},
                }
            },
            None => {},
        }
        i += 1;
    }
    index
}

fn list_targets(files: &[SourceEntry]) -> (r: Vec<Vec<usize>>)
    ensures
        r.deep_view() == file_targets(files.deep_view()),
{
    let ghost all = files.deep_view();
    let index = index_files(files);
    let mut lists: Vec<Vec<usize>> = Vec::new();
    let mut i: usize = 0;
    assert(lists.deep_view() =~= file_targets(all).take(0));
    while i < files.len()
        invariant
            i <= files@.len(),
            all == files.deep_view(),
            index.deep_view() == file_index(all, all.len() as int),
            lists.deep_view() == file_targets(all).take(i as int),
        decreases files@.len() - i,
    {
        assert(all[i as int] == files@[i as int].deep_view());
        let names = extract_internal_deps(files[i].source.as_str());
        let mut others: Vec<usize> = Vec::new();
        let mut k: usize = 0;
        assert(others.deep_view() =~= Seq::empty());
        while k < names.len()
            invariant
                k <= names@.len(),
                others.deep_view() == other_files(
                    index.deep_view(),
                    names.deep_view(),
                    i as int,
                    k as int,
                ),
            decreases names@.len() - k,
        {
            assert(names.deep_view()[k as int] == names@[k as int]@);
            match index.get(names[k].as_str()) {
                Some(j) => {
                    if *j != i {
                        append_item(&mut others, *j);
                    }
                },
                None => {},
            }
            k += 1;
        }
        append_item(&mut lists, others);
        assert(file_targets(all).take(i + 1) =~= file_targets(all).take(i as int).push(
            file_targets(all)[i as int],
        ));
        i += 1;
    }
    assert(file_targets(all).take(all.len() as int) =~= file_targets(all));
    lists
}

fn reverse_edges(edges: &Vec<Vec<usize>>) -> (r: Vec<Vec<usize>>)
    ensures
        r.deep_view() == reversed(edges.deep_view()),
{
    let ghost model = edges.deep_view();
    let n: usize = edges.len();
    let mut turned: Vec<Vec<usize>> = Vec::new();
    let mut j: usize = 0;
    assert(turned.deep_view() =~= reversed(model).take(0));
    while j < n
        invariant
            j <= n == edges@.len(),
            model == edges.deep_view(),
            turned.deep_view() == reversed(model).take(j as int),
        decreases n - j,
    {
        let mut list: Vec<usize> = Vec::new();
        let mut i: usize = 0;
        assert(list.deep_view() =~= Seq::empty());
        while i < n
            invariant
                i <= n == edges@.len(),
                model == edges.deep_view(),
                list.deep_view() == sources(model, j as int, i as int),
            decreases n - i,
        {
            let targets = &edges[i];
            assert(model[i as int] == targets.deep_view());
            let ghost before = list.deep_view();
            let mut k: usize = 0;
            assert(before + Seq::<usize>::empty() =~= before);
            while k < targets.len()
                invariant
                    k <= targets@.len(),
                    list.deep_view() == before + back_edges(
                        targets.deep_view(),
                        i as int,
                        j as int,
                        k as int,
                    ),
                decreases targets@.len() - k,
            {
                assert(targets.deep_view()[k as int] == targets@[k as int]);
                let ghost row = back_edges(targets.deep_view(), i as int, j as int, k as int);
                if targets[k] == j {
                    append_item(&mut list, i);
                    assert((before + row).push(i) =~= before + row.push(i));
                }
                k += 1;
            }
            i += 1;
        }
        append_item(&mut turned, list);
        assert(reversed(model).take(j + 1) =~= reversed(model).take(j as int).push(
            reversed(model)[j as int],
        ));
        j += 1;
    }
    assert(reversed(model).take(n as int) =~= reversed(model));
    turned
}

/// Sorts files so that each comes behind those that it refers to, where there is no cycle.
/// Gives their positions in the list.
pub fn toposort_files(files: &[SourceEntry]) -> (r: Vec<usize>)
    ensures
        r@ == file_order(files.deep_view()),
{
    let ghost all = files.deep_view();
    let edges = reverse_edges(&list_targets(files));
    let length: usize = edges.len();
    proof {
        assert(edges.deep_view().len() == length);
        lemma_reversed(file_targets(all));
    }
    let (sorted, cyclic) = graph::sort_nodes(&edges);
    let mut order = sorted;
    let mut rest = cyclic;
    order.append(&mut rest);
    assert(order@ =~= file_order(all));
    order
}

// ─── Laws ─────────────────────────────────────────────────────────────────────

proof fn lemma_word(s: Seq<char>, i: int)
    requires
        0 <= i <= s.len(),
    ensures
        i <= text::word_end(s, i) <= s.len(),
        forall|j: int| i <= j < text::word_end(s, i) ==> text::is_word(#[trigger] s[j]),
    decreases s.len() - i,
{
    if i < s.len() && text::is_word(s[i]) {
        lemma_word(s, i + 1);
    }
}

proof fn lemma_named(s: Seq<char>, i: int, x: Seq<char>)
    requires
        0 <= i <= s.len(),
        named_at(s, i).contains(x),
    ensures
        is_module_name(x),
{
    reveal_strlit("r#");
    lemma_word(s, i);
    assert(named_at(s, i)[0] == x);
    if text::occurs_at(s, "r#"@, i) && i + 2 < s.len() && text::is_word(s[i + 2]) {
        lemma_word(s, i + 2);
        text::lemma_runs_advance(s, i + 3);
        let rest = x.skip(2);
        assert(x.subrange(0, 2) =~= s.subrange(i, i + 2));
        assert forall|j: int| 0 <= j < rest.len() implies text::is_word(#[trigger] rest[j]) by {
            assert(rest[j] == s[i + 2 + j]);
        }
    } else {
        assert forall|j: int| 0 <= j < x.len() implies text::is_word(#[trigger] x[j]) by {
            assert(x[j] == s[i + j]);
        }
    }
}

proof fn lemma_in_either(a: Seq<Seq<char>>, b: Seq<Seq<char>>, x: Seq<char>)
    ensures
        (a + b).contains(x) <==> a.contains(x) || b.contains(x),
{
    if a.contains(x) {
        let k = choose|k: int| 0 <= k < a.len() && a[k] == x;
        assert((a + b)[k] == x);
    }
    if b.contains(x) {
        let k = choose|k: int| 0 <= k < b.len() && b[k] == x;
        assert((a + b)[a.len() + k] == x);
    }
}

proof fn lemma_listed(s: Seq<char>, i: int, depth: nat, fresh: bool, x: Seq<char>)
    requires
        0 <= i,
        listed(s, i, depth, fresh).contains(x),
    ensures
        is_module_name(x),
    decreases s.len() - i,
{
    if i < s.len() && s[i] != ';' {
        if s[i] == '{' {
            lemma_listed(s, i + 1, depth + 1, false, x);
        } else if s[i] == '}' {
            if depth > 0 {
                lemma_listed(s, i + 1, (depth - 1) as nat, false, x);
            }
        } else if s[i] == ',' {
            lemma_listed(s, i + 1, depth, depth == 0, x);
        } else if text::is_whitespace(s[i]) {
            lemma_listed(s, i + 1, depth, fresh, x);
        } else if fresh {
            lemma_in_either(named_at(s, i), listed(s, i + 1, depth, false), x);
            if named_at(s, i).contains(x) {
                lemma_named(s, i, x);
            } else {
                lemma_listed(s, i + 1, depth, false, x);
            }
        } else {
            lemma_listed(s, i + 1, depth, false, x);
        }
    }
}

proof fn lemma_references(s: Seq<char>, from: int, x: Seq<char>)
    requires
        references(s, from).contains(x),
    ensures
        is_module_name(x),
    decreases s.len() - from,
{
    match text::find_from(s, "crate::"@, from) {
        Some(i) if 0 <= from <= i && i + 7 <= s.len() => {
            lemma_in_either(named_behind(s, i + 7), references(s, i + 7), x);
            let p = text::spaces_end(s, i + 7);
            text::lemma_runs_advance(s, i + 7);
            if references(s, i + 7).contains(x) {
                lemma_references(s, i + 7, x);
            } else if p < s.len() && s[p] == '{' {
                lemma_listed(s, p + 1, 0, true, x);
            } else {
                lemma_named(s, p, x);
            }
        },
        _ => {},
    }
}

/// What a source text refers to are names of modules, and no name is listed twice.
pub proof fn references_are_module_names(source: Seq<char>)
    ensures
        internal_deps(source).no_duplicates(),
        forall|i: int|
            0 <= i < internal_deps(source).len() ==> is_module_name(
                #[trigger] internal_deps(source)[i],
            ),
{
    let none = Seq::<Seq<char>>::empty();
    with_distinct_names(none, references(source, 0));
    assert forall|i: int| 0 <= i < internal_deps(source).len() implies is_module_name(
        #[trigger] internal_deps(source)[i],
    ) by {
        let x = internal_deps(source)[i];
        assert(internal_deps(source).contains(x));
        with_names_is_union(none, references(source, 0), x);
        lemma_references(source, 0, x);
    }
}

proof fn lemma_all_referenced(s: Seq<char>, from: int, i: int, x: Seq<char>)
    requires
        0 <= from <= i,
        text::occurs_at(s, "crate::"@, i),
        named_behind(s, i + 7).contains(x),
    ensures
        references(s, from).contains(x),
    decreases s.len() - from,
{
    reveal_strlit("crate::");
    text::lemma_find_from(s, "crate::"@, from);
    assert(s.subrange(i, i + 7)[0] == s[i]);
    match text::find_from(s, "crate::"@, from) {
        Some(k) => {
            let found = s.subrange(k, k + 7);
            lemma_in_either(named_behind(s, k + 7), references(s, k + 7), x);
            if k < i {
                assert(found[1] == s[k + 1] && found[2] == s[k + 2] && found[3] == s[k + 3]);
                assert(found[4] == s[k + 4] && found[5] == s[k + 5] && found[6] == s[k + 6]);
                lemma_all_referenced(s, k + 7, i, x);
            }
        },
        None => {},
    }
}

/// Each module that is named behind a `crate::`, alone or in a list, is listed.
pub proof fn all_references_are_listed(source: Seq<char>, i: int, name: Seq<char>)
    requires
        text::occurs_at(source, "crate::"@, i),
        named_behind(source, i + 7).contains(name),
    ensures
        internal_deps(source).contains(name),
{
    lemma_all_referenced(source, 0, i, name);
    with_names_is_union(Seq::empty(), references(source, 0), name);
}

/// Every file is in the order exactly once.
pub proof fn all_files_are_ordered(files: Seq<SourceEntryModel>)
    requires
        files.len() <= usize::MAX,
    ensures
        file_order(files).len() == files.len(),
        graph::distinct_nodes(file_order(files), files.len()),
{
    let edges = reversed(file_targets(files));
    lemma_reversed(file_targets(files));
    graph::sorted_and_cyclic_are_all(edges);
}

/// Whether a file refers to another.
pub open spec fn refers_to(files: Seq<SourceEntryModel>, i: int, j: int) -> bool {
    exists|p: int|
        0 <= p < file_targets(files)[i].len() && #[trigger] file_targets(files)[i][p] == j
}

/// Where no files refer to each other in a cycle, each comes behind those that it refers to.
pub proof fn referenced_files_come_first(files: Seq<SourceEntryModel>, p: int, j: int)
    requires
        files.len() <= usize::MAX,
        graph::acyclic(reversed(file_targets(files))),
        0 <= p < file_order(files).len(),
        0 <= j < files.len(),
        refers_to(files, file_order(files)[p] as int, j),
    ensures
        exists|q: int| 0 <= q < p && #[trigger] file_order(files)[q] == j,
{
    let targets = file_targets(files);
    let edges = reversed(targets);
    let sorted = graph::sorted_nodes(edges);
    lemma_reversed(targets);
    graph::all_sorted_if_acyclic(edges);
    assert(file_order(files) =~= sorted);
    graph::sorted_nodes_are_distinct(edges);
    let i = sorted[p];
    lemma_sources(targets, j, targets.len() as int);
    assert(edges[j].contains(i as int as usize));
    let k = choose|k: int| 0 <= k < edges[j].len() && edges[j][k] == i;
    graph::lemma_counted(edges[j], i as int);
    assert(edges[j][k] == i);
    assert(graph::has_edge(edges, j, i as int));
    graph::sources_come_first(edges, j, p);
    let q = choose|q: int| 0 <= q < p && #[trigger] sorted[q] == j;
    assert(file_order(files)[q] == j);
}

/// A file that refers to no other comes before every file that does.
pub proof fn files_without_references_come_first(
    files: Seq<SourceEntryModel>,
    j: int,
    p: int,
    t: int,
)
    requires
        files.len() <= usize::MAX,
        0 <= j < files.len(),
        file_targets(files)[j].len() == 0,
        0 <= p < file_order(files).len(),
        0 <= t < files.len(),
        refers_to(files, file_order(files)[p] as int, t),
    ensures
        exists|q: int| 0 <= q < p && #[trigger] file_order(files)[q] == j,
{
    let targets = file_targets(files);
    let edges = reversed(targets);
    let sorted = graph::sorted_nodes(edges);
    let i = file_order(files)[p];
    lemma_reversed(targets);
    graph::sorted_and_cyclic_are_all(edges);
    assert(0 <= i < files.len());
    assert forall|s: int| !graph::has_edge(edges, s, j) by {
        if 0 <= s < edges.len() {
            lemma_sources(targets, s, targets.len() as int);
            graph::lemma_counted(edges[s], j);
            assert(!edges[s].contains(j as usize));
        }
    }
    lemma_sources(targets, t, targets.len() as int);
    assert(edges[t].contains(i as int as usize));
    let k = choose|k: int| 0 <= k < edges[t].len() && edges[t][k] == i;
    graph::lemma_counted(edges[t], i as int);
    assert(edges[t][k] == i);
    assert(graph::has_edge(edges, t, i as int));
    if p < sorted.len() {
        assert(sorted[p] == i);
        graph::free_nodes_come_first(edges, j, t, p);
        let q = choose|q: int| 0 <= q < p && #[trigger] sorted[q] == j;
        assert(file_order(files)[q] == j);
    } else {
        graph::free_nodes_are_sorted(edges, j);
        let q = choose|q: int| 0 <= q < sorted.len() && sorted[q] == j as usize;
        assert(file_order(files)[q] == j);
    }
}

} // verus!

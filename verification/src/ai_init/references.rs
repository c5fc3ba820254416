//! Which files refer to which.
use vstd::prelude::*;

use super::order::{
    all_references_are_listed, file_index, file_targets, internal_deps, named_behind, other_files,
    refers_to, SourceEntryModel,
};
use crate::data::{lookup, lookup_after_insert, lookup_of_other_key, with_entry};
use crate::text;

verus! {

// ─── Names ────────────────────────────────────────────────────────────────────

proof fn lemma_word_end(s: Seq<char>, i: int, end: int)
    requires
        0 <= i <= end <= s.len(),
        forall|k: int| i <= k < end ==> text::is_word(#[trigger] s[k]),
        end < s.len() ==> !text::is_word(s[end]),
    ensures
        text::word_end(s, i) == end,
    decreases end - i,
{
    if i < end {
        lemma_word_end(s, i + 1, end);
    }
}

/// A module that is named behind `crate::` is referred to; `self` names none.
pub proof fn names_behind_the_crate_are_references(
    before: Seq<char>,
    name: Seq<char>,
    behind: Seq<char>,
)
    requires
        name.len() > 0,
        name != "self"@,
        forall|k: int| 0 <= k < name.len() ==> text::is_word(#[trigger] name[k]),
        !text::is_whitespace(name[0]),
        name[0] != '{',
        behind.len() > 0 ==> !text::is_word(behind[0]) && behind[0] != '#',
    ensures
        internal_deps(before + "crate::"@ + name + behind).contains(name),
{
    reveal_strlit("crate::");
    reveal_strlit("r#");
    let s = before + "crate::"@ + name + behind;
    let i = before.len() as int;
    let start = i + 7;
    let end = start + name.len();
    assert(s.subrange(i, i + 7) =~= "crate::"@);
    assert(s[start] == name[0]);
    assert forall|k: int| start <= k < end implies text::is_word(#[trigger] s[k]) by {
        assert(s[k] == name[k - start]);
    }
    if end < s.len() {
        assert(s[end] == behind[0]);
    }
    lemma_word_end(s, start, end);
    assert(text::spaces_end(s, start) == start);
    if text::occurs_at(s, "r#"@, start) && start + 2 < s.len() && text::is_word(s[start + 2]) {
        let mark = s.subrange(start, start + 2);
        assert(mark[1] == s[start + 1]);
        if name.len() == 1 {
            assert(s[start + 1] == behind[0]);
        } else {
            lemma_word_end(s, start + 2, end);
        }
    }
    assert(s.subrange(start, end) =~= name);
    assert(seq![name][0] == name);
    assert(named_behind(s, i + 7).contains(name));
    all_references_are_listed(s, i, name);
}

// ─── Files ────────────────────────────────────────────────────────────────────

/// Whether a file is known by a name: by its own, and where that is `mod`, by that of its
/// directory as well.
pub open spec fn is_known_as(file: SourceEntryModel, name: Seq<char>) -> bool {
    file.stem == Some(name) || file.stem == Some("mod"@) && file.parent == Some(name)
}

proof fn lemma_file_index(files: Seq<SourceEntryModel>, n: int, name: Seq<char>)
    requires
        0 <= n <= files.len() <= usize::MAX,
    ensures
        match lookup(file_index(files, n), name) {
            Some(j) => j < n && is_known_as(files[j as int], name) && forall|k: int|
                j < k < n ==> !is_known_as(#[trigger] files[k], name),
            None => forall|k: int| 0 <= k < n ==> !is_known_as(#[trigger] files[k], name),
        },
    decreases n,
{
    if n > 0 {
        lemma_file_index(files, n - 1, name);
        let before = file_index(files, n - 1);
        let file = files[n - 1];
        let i = (n - 1) as usize;
        if let Some(stem) = file.stem {
            let by_stem = with_entry(before, stem, i);
            if stem == name {
                lookup_after_insert(before, stem, i);
            } else {
                lookup_of_other_key(before, stem, i, name);
            }
            if let Some(parent) = file.parent {
                if stem == "mod"@ {
                    if parent == name {
                        lookup_after_insert(by_stem, parent, i);
                    } else {
                        lookup_of_other_key(by_stem, parent, i, name);
                    }
                }
            }
        }
    }
}

proof fn lemma_other_files(
    index: Seq<(Seq<char>, usize)>,
    names: Seq<Seq<char>>,
    i: int,
    k: int,
    j: usize,
)
    requires
        0 <= k <= names.len(),
    ensures
        other_files(index, names, i, k).contains(j) <==> j != i && exists|m: int|
            0 <= m < k && lookup(index, #[trigger] names[m]) == Some(j),
    decreases k,
{
    if k > 0 {
        lemma_other_files(index, names, i, k - 1, j);
        let before = other_files(index, names, i, k - 1);
        let now = other_files(index, names, i, k);
        if let Some(x) = lookup(index, names[k - 1]) {
            if x != i {
                assert(now[before.len() as int] == x);
                if before.contains(j) {
                    let q = choose|q: int| 0 <= q < before.len() && before[q] == j;
                    assert(now[q] == j);
                }
                if now.contains(j) {
                    let q = choose|q: int| 0 <= q < now.len() && now[q] == j;
                    if q < before.len() {
                        assert(before[q] == j);
                    }
                }
            }
        }
    }
}

/// A file refers to another exactly where its source names a module by which the other is known,
/// and no later file is known by that name. No file refers to itself.
pub proof fn files_refer_to_those_they_name(files: Seq<SourceEntryModel>, i: int, j: int)
    requires
        files.len() <= usize::MAX,
        0 <= i < files.len(),
        0 <= j < files.len(),
    ensures
        refers_to(files, i, j) <==> i != j && exists|m: int|
            0 <= m < internal_deps(files[i].source).len() && is_known_as(
                files[j],
                #[trigger] internal_deps(files[i].source)[m],
            ) && forall|k: int|
                j < k < files.len() ==> !is_known_as(
                    #[trigger] files[k],
                    internal_deps(files[i].source)[m],
                ),
{
    let names = internal_deps(files[i].source);
    let n = files.len() as int;
    let index = file_index(files, n);
    let targets = file_targets(files)[i];
    let x = j as usize;
    lemma_other_files(index, names, i, names.len() as int, x);
    assert(targets == other_files(index, names, i, names.len() as int));
    assert(refers_to(files, i, j) <==> targets.contains(x)) by {
        if targets.contains(x) {
            let p = choose|p: int| 0 <= p < targets.len() && targets[p] == x;
            assert(file_targets(files)[i][p] == j);
        }
        if refers_to(files, i, j) {
            let p = choose|p: int|
                0 <= p < file_targets(files)[i].len() && #[trigger] file_targets(files)[i][p] == j;
            assert(targets[p] == x);
        }
    }
    assert forall|m: int| 0 <= m < names.len() implies (lookup(index, #[trigger] names[m]) == Some(x)
        <==> is_known_as(files[j], names[m]) && forall|k: int|
        j < k < files.len() ==> !is_known_as(#[trigger] files[k], names[m])) by {
        lemma_file_index(files, n, names[m]);
        if is_known_as(files[j], names[m]) && forall|k: int|
            j < k < files.len() ==> !is_known_as(#[trigger] files[k], names[m]) {
            assert(is_known_as(files[j], names[m]));
        }
    }
    if exists|m: int| 0 <= m < names.len() && lookup(index, #[trigger] names[m]) == Some(x) {
        let m = choose|m: int| 0 <= m < names.len() && lookup(index, #[trigger] names[m]) == Some(x);
        assert(is_known_as(files[j], names[m]));
    }
}

} // verus!

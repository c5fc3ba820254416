//! What summaries of modules hold.
use vstd::prelude::*;

use super::summary::{
    blocks, comment_list, definition_text, definitions, field_text, field_texts, signatures,
    variant_text, variant_texts,
};
use crate::extractors::ExtractedModuleModel;
use crate::text;
use crate::types::{type_text, TypeInfoModel, TypeKind};

verus! {

proof fn lemma_within(a: Seq<char>, s: Seq<char>, b: Seq<char>, p: Seq<char>)
    requires
        text::contains(s, p),
    ensures
        text::contains(a + s + b, p),
{
    let i = choose|i: int| #[trigger] text::occurs_at(s, p, i);
    let all = a + s + b;
    let k = a.len() + i;
    assert(all.subrange(k, k + p.len()) =~= s.subrange(i, i + p.len()));
    assert(text::occurs_at(all, p, k));
}

proof fn lemma_whole(p: Seq<char>)
    ensures
        text::contains(p, p),
{
    assert(p.subrange(0, p.len() as int) =~= p);
    assert(text::occurs_at(p, p, 0));
}

proof fn lemma_joined(parts: Seq<Seq<char>>, sep: Seq<char>, k: int, p: Seq<char>)
    requires
        0 <= k < parts.len(),
        text::contains(parts[k], p),
    ensures
        text::contains(text::join(parts, sep), p),
    decreases parts.len(),
{
    if parts.len() > 1 {
        let front = parts.drop_last();
        let before = text::join(front, sep);
        if k < front.len() {
            lemma_joined(front, sep, k, p);
            lemma_within(Seq::empty(), before, sep + parts.last(), p);
            assert(Seq::<char>::empty() + before + (sep + parts.last()) =~= text::join(parts, sep));
        } else {
            lemma_within(before + sep, parts.last(), Seq::empty(), p);
            assert(before + sep + parts.last() + Seq::<char>::empty() =~= text::join(parts, sep));
        }
    }
}

// ─── Definitions ──────────────────────────────────────────────────────────────

/// A definition begins with the word for what is defined, and its name.
pub proof fn definitions_begin_with_what_they_define(name: Seq<char>, info: TypeInfoModel)
    ensures
        info.kind == TypeKind::Struct ==> text::starts_with(
            definition_text(name, info),
            "pub "@ + "struct"@ + " "@ + name,
        ),
        info.kind == TypeKind::Enum ==> text::starts_with(
            definition_text(name, info),
            "pub "@ + "enum"@ + " "@ + name,
        ),
        info.kind == TypeKind::Trait ==> text::starts_with(
            definition_text(name, info),
            "pub "@ + "trait"@ + " "@ + name,
        ),
        info.kind == TypeKind::TypeAlias ==> text::starts_with(
            definition_text(name, info),
            "pub "@ + "type"@ + " "@ + name,
        ),
{
    let head = "pub "@ + crate::types::type_kind_text(info.kind) + " "@ + name;
    let all = definition_text(name, info);
    assert(all.subrange(0, head.len() as int) =~= head);
}

/// A definition lists the fields with their types, or else the variants; behind its name stand
/// the names of its parameters.
pub proof fn definitions_list_members(name: Seq<char>, info: TypeInfoModel, i: int)
    ensures
        0 <= i < info.fields.len() ==> text::contains(
            definition_text(name, info),
            "  "@ + info.fields[i].name + ": "@ + type_text(info.fields[i].type_repr),
        ),
        info.fields.len() == 0 && 0 <= i < info.variants.len() ==> text::contains(
            definition_text(name, info),
            "  "@ + info.variants[i].name,
        ),
        0 <= i < info.generics.len() ==> text::contains(
            definition_text(name, info),
            info.generics[i].name,
        ),
{
    let all = definition_text(name, info);
    let head = "pub "@ + crate::types::type_kind_text(info.kind) + " "@ + name;
    let names = info.generics.map_values(|g: crate::types::GenericParamModel| g.name);
    let listed = "<"@ + text::join(names, ", "@) + ">"@;
    let start = if info.generics.len() == 0 {
        head
    } else {
        head + listed
    };
    let members = if info.fields.len() > 0 {
        field_texts("  "@, info.fields)
    } else {
        variant_texts(info.variants)
    };
    let body = text::join(members, ",\n"@);
    if info.fields.len() > 0 || info.variants.len() > 0 {
        assert(all =~= (start + " {\n"@) + body + "\n}"@);
    }
    if 0 <= i < info.fields.len() {
        let p = field_text("  "@, info.fields[i]);
        lemma_whole(p);
        assert(members[i] == p);
        lemma_joined(members, ",\n"@, i, p);
        lemma_within(start + " {\n"@, body, "\n}"@, p);
    }
    if info.fields.len() == 0 && 0 <= i < info.variants.len() {
        let v = info.variants[i];
        let p = "  "@ + v.name;
        lemma_whole(p);
        assert(members[i] == variant_text(v));
        if v.fields.len() > 0 {
            let rest = "("@ + text::join(field_texts(""@, v.fields), ", "@) + ")"@;
            lemma_within(Seq::empty(), p, rest, p);
            assert(Seq::<char>::empty() + p + rest =~= variant_text(v));
        }
        lemma_joined(members, ",\n"@, i, p);
        lemma_within(start + " {\n"@, body, "\n}"@, p);
    }
    if 0 <= i < info.generics.len() {
        let p = info.generics[i].name;
        lemma_whole(p);
        assert(names[i] == p);
        lemma_joined(names, ", "@, i, p);
        lemma_within(head + "<"@, text::join(names, ", "@), ">"@, p);
        let tail = if all.len() > start.len() {
            all.skip(start.len() as int)
        } else {
            Seq::empty()
        };
        assert(start =~= (head + "<"@) + text::join(names, ", "@) + ">"@);
        lemma_within(Seq::empty(), start, tail, p);
        assert(Seq::<char>::empty() + start + tail =~= all);
    }
}

// ─── Blocks ───────────────────────────────────────────────────────────────────

proof fn lemma_listed(title: Seq<char>, items: Seq<Seq<char>>, i: int)
    requires
        0 <= i < items.len(),
    ensures
        comment_list(title, items).len() == 1,
        text::starts_with(comment_list(title, items)[0], title),
        text::contains(comment_list(title, items)[0], "//   "@ + items[i]),
{
    let lines = text::prefixed("//   "@, items);
    let p = "//   "@ + items[i];
    lemma_whole(p);
    assert(lines[i] == p);
    lemma_joined(lines, "\n"@, i, p);
    lemma_within(title, text::join(lines, "\n"@), Seq::empty(), p);
    let all = comment_list(title, items)[0];
    assert(title + text::join(lines, "\n"@) + Seq::<char>::empty() =~= all);
    assert(all.subrange(0, title.len() as int) =~= title);
}

/// Whether some block begins with a title and holds a text.
pub open spec fn is_under(m: ExtractedModuleModel, title: Seq<char>, p: Seq<char>) -> bool {
    exists|k: int|
        0 <= k < blocks(m).len() && text::starts_with(#[trigger] blocks(m)[k], title)
            && text::contains(blocks(m)[k], p)
}

/// Each import, each state variable and each event stands in the list of its kind; the types
/// stand before everything else, in order.
pub proof fn summaries_list_what_modules_have(m: ExtractedModuleModel, i: int)
    ensures
        0 <= i < m.type_definitions.len() ==> blocks(m).len() > i && blocks(m)[i] == definition_text(
            m.type_definitions[i].0,
            m.type_definitions[i].1,
        ),
        0 <= i < m.imports.len() ==> is_under(m, "// Imports:\n"@, "//   "@ + m.imports[i]),
        0 <= i < m.state_variables.len() ==> is_under(
            m,
            "// State variables:\n"@,
            "//   "@ + m.state_variables[i],
        ),
        0 <= i < m.events.len() ==> is_under(m, "// Events:\n"@, "//   "@ + m.events[i]),
{
    let n = m.function_signatures.len() as int;
    let a = definitions(m);
    let b = a + signatures(m, true, n) + signatures(m, false, n);
    let imports = comment_list("// Imports:\n"@, m.imports);
    let state = comment_list("// State variables:\n"@, m.state_variables);
    let events = comment_list("// Events:\n"@, m.events);
    let all = blocks(m);
    assert(all == b + imports + state + events);
    if 0 <= i < m.type_definitions.len() {
        assert(all[i] == a[i]);
    }
    if 0 <= i < m.imports.len() {
        lemma_listed("// Imports:\n"@, m.imports, i);
        let k = b.len() as int;
        assert(all[k] == imports[0]);
    }
    if 0 <= i < m.state_variables.len() {
        lemma_listed("// State variables:\n"@, m.state_variables, i);
        let k = b.len() + imports.len();
        assert(all[k as int] == state[0]);
    }
    if 0 <= i < m.events.len() {
        lemma_listed("// Events:\n"@, m.events, i);
        let k = b.len() + imports.len() + state.len();
        assert(all[k as int] == events[0]);
    }
}

} // verus!

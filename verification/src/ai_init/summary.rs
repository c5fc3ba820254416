//! Compact summaries of modules, for models with a small context window.
use vstd::prelude::*;

use crate::data::{append_item, list_contains};
use crate::extractors::{ExtractedModule, ExtractedModuleModel};
use crate::text;
use crate::types::{
    type_kind_text, type_text, FieldInfo, FieldInfoModel, GenericParamModel, TypeInfo,
    TypeInfoModel, VariantInfo, VariantInfoModel,
};

verus! {

/// A field as it is written: its name and its type, behind some blanks.
pub open spec fn field_text(blanks: Seq<char>, f: FieldInfoModel) -> Seq<char> {
    blanks + f.name + ": "@ + type_text(f.type_repr)
}

pub open spec fn field_texts(blanks: Seq<char>, fields: Seq<FieldInfoModel>) -> Seq<Seq<char>> {
    fields.map_values(|f: FieldInfoModel| field_text(blanks, f))
}

pub open spec fn variant_text(v: VariantInfoModel) -> Seq<char> {
    if v.fields.len() == 0 {
        "  "@ + v.name
    } else {
        "  "@ + v.name + "("@ + text::join(field_texts(""@, v.fields), ", "@) + ")"@
    }
}

pub open spec fn variant_texts(variants: Seq<VariantInfoModel>) -> Seq<Seq<char>> {
    variants.map_values(|v: VariantInfoModel| variant_text(v))
}

/// A list of members in braces, one on each line.
pub open spec fn body_text(members: Seq<Seq<char>>) -> Seq<char> {
    " {\n"@ + text::join(members, ",\n"@) + "\n}"@
}

/// A definition of a type, as it is written.
pub open spec fn definition_text(name: Seq<char>, info: TypeInfoModel) -> Seq<char> {
    let head = "pub "@ + type_kind_text(info.kind) + " "@ + name;
    let generics = if info.generics.len() == 0 {
        head
    } else {
        head + ("<"@ + text::join(
            info.generics.map_values(|g: GenericParamModel| g.name),
            ", "@,
        ) + ">"@)
    };
    if info.fields.len() > 0 {
        generics + body_text(field_texts("  "@, info.fields))
    } else if info.variants.len() > 0 {
        generics + body_text(variant_texts(info.variants))
    } else {
        generics
    }
}

pub open spec fn definitions(m: ExtractedModuleModel) -> Seq<Seq<char>> {
    m.type_definitions.map_values(|d: (Seq<char>, TypeInfoModel)| definition_text(d.0, d.1))
}

/// Those of the first `k` signatures that are of public functions, or those that are not.
pub open spec fn signatures(m: ExtractedModuleModel, public: bool, k: int) -> Seq<Seq<char>>
    decreases k,
{
    if k <= 0 || k > m.function_signatures.len() {
        Seq::empty()
    } else {
        let before = signatures(m, public, k - 1);
        let (name, signature) = m.function_signatures[k - 1];
        if m.public_functions.contains(name) != public {
            before
        } else if public {
            before.push("pub "@ + signature)
        } else {
            before.push(signature)
        }
    }
}

/// A list under a title, in comments, where there is anything to list.
pub open spec fn comment_list(title: Seq<char>, items: Seq<Seq<char>>) -> Seq<Seq<char>> {
    if items.len() == 0 {
        Seq::empty()
    } else {
        seq![title + text::join(text::prefixed("//   "@, items), "\n"@)]
    }
}

/// What a summary is made of, the most important first: types, public functions, other
/// functions, imports, state variables and events.
pub open spec fn blocks(m: ExtractedModuleModel) -> Seq<Seq<char>> {
    let n = m.function_signatures.len() as int;
    definitions(m) + signatures(m, true, n) + signatures(m, false, n) + comment_list(
        "// Imports:\n"@,
        m.imports,
    ) + comment_list("// State variables:\n"@, m.state_variables) + comment_list(
        "// Events:\n"@,
        m.events,
    )
}

/// How many bytes a block takes, with the end of its line.
pub open spec fn cost(block: Seq<char>) -> nat {
    vstd::utf8::encode_utf8(block).len() + 1
}

/// The blocks that fit in a budget of bytes.
pub struct Fitting {
    pub kept: Seq<Seq<char>>,
    pub left: int,
    pub dropped: bool,
}

/// Those of the first `k` blocks that fit: each is taken whole, if what is left allows it.
pub open spec fn fitting(blocks: Seq<Seq<char>>, budget: nat, k: int) -> Fitting
    decreases k,
{
    if k <= 0 || k > blocks.len() {
        Fitting { kept: Seq::empty(), left: budget as int, dropped: false }
    } else {
        let before = fitting(blocks, budget, k - 1);
        let block = blocks[k - 1];
        if cost(block) <= before.left {
            Fitting {
                kept: before.kept.push(block),
                left: before.left - cost(block),
                dropped: before.dropped,
            }
        } else {
            Fitting { dropped: true, ..before }
        }
    }
}

/// What is said where blocks are left out.
pub open spec fn omission() -> Seq<char> {
    "// ... (some definitions omitted to fit context window)"@
}

/// The blocks that a summary shows: those that fit, and a notice if any was left out and the
/// notice fits behind them.
pub open spec fn shown(blocks: Seq<Seq<char>>, budget: nat) -> Seq<Seq<char>> {
    let fit = fitting(blocks, budget, blocks.len() as int);
    if fit.dropped && vstd::utf8::encode_utf8(omission()).len() <= fit.left {
        fit.kept.push(omission())
    } else {
        fit.kept
    }
}

/// The summary of a module within a budget of bytes.
pub open spec fn summary(m: ExtractedModuleModel, budget: nat) -> Seq<char> {
    text::join(shown(blocks(m), budget), "\n"@)
}

fn write_fields(blanks: &str, fields: &Vec<FieldInfo>) -> (r: Vec<String>)
    ensures
        r.deep_view() == field_texts(blanks@, fields.deep_view()),
{
    let ghost all = field_texts(blanks@, fields.deep_view());
    let mut out: Vec<String> = Vec::new();
    let mut i: usize = 0;
    assert(out.deep_view() =~= all.take(0));
    while i < fields.len()
        invariant
            i <= fields@.len(),
            all == field_texts(blanks@, fields.deep_view()),
            out.deep_view() == all.take(i as int),
        decreases fields@.len() - i,
    {
        assert(fields.deep_view()[i as int] == fields@[i as int].deep_view());
        let mut line = blanks.to_owned();
        line.append(fields[i].name.as_str());
        line.append(": ");
        line.append(fields[i].type_repr.to_string().as_str());
        append_item(&mut out, line);
        assert(all.take(i + 1) =~= all.take(i as int).push(all[i as int]));
        i += 1;
    }
    assert(all.take(all.len() as int) =~= all);
    out
}

fn write_variants(variants: &Vec<VariantInfo>) -> (r: Vec<String>)
    ensures
        r.deep_view() == variant_texts(variants.deep_view()),
{
    let ghost all = variant_texts(variants.deep_view());
    let mut out: Vec<String> = Vec::new();
    let mut i: usize = 0;
    assert(out.deep_view() =~= all.take(0));
    while i < variants.len()
        invariant
            i <= variants@.len(),
            all == variant_texts(variants.deep_view()),
            out.deep_view() == all.take(i as int),
        decreases variants@.len() - i,
    {
        assert(variants.deep_view()[i as int] == variants@[i as int].deep_view());
        let v = &variants[i];
        let mut line = "  ".to_owned();
        line.append(v.name.as_str());
        if v.fields.len() > 0 {
            line.append("(");
            line.append(
                text::join_strings(write_fields("", &v.fields).as_slice(), ", ").as_str(),
            );
            line.append(")");
        }
        append_item(&mut out, line);
        assert(all.take(i + 1) =~= all.take(i as int).push(all[i as int]));
        i += 1;
    }
    assert(all.take(all.len() as int) =~= all);
    out
}

fn write_body(members: &Vec<String>) -> (r: String)
    ensures
        r@ == body_text(members.deep_view()),
{
    let mut out = " {\n".to_owned();
    out.append(text::join_strings(members.as_slice(), ",\n").as_str());
    out.append("\n}");
    out
}

fn write_definition(name: &str, info: &TypeInfo) -> (r: String)
    ensures
        r@ == definition_text(name@, info.deep_view()),
{
    let ghost model = info.deep_view();
    let word = info.kind.to_string();
    let mut def = "pub ".to_owned();
    def.append(word.as_str());
    def.append(" ");
    def.append(name);
    if info.generics.len() > 0 {
        let ghost all = model.generics.map_values(|g: GenericParamModel| g.name);
        let mut names: Vec<String> = Vec::new();
        let mut i: usize = 0;
        assert(names.deep_view() =~= all.take(0));
        while i < info.generics.len()
            invariant
                i <= info.generics@.len(),
                all == info.generics.deep_view().map_values(
                    |g: GenericParamModel| g.name,
                ),
                names.deep_view() == all.take(i as int),
            decreases info.generics@.len() - i,
        {
            assert(info.generics.deep_view()[i as int] == info.generics@[i as int].deep_view());
            append_item(&mut names, info.generics[i].name.clone());
            assert(all.take(i + 1) =~= all.take(i as int).push(all[i as int]));
            i += 1;
        }
        assert(all.take(all.len() as int) =~= all);
        let mut list = "<".to_owned();
        list.append(text::join_strings(names.as_slice(), ", ").as_str());
        list.append(">");
        def.append(list.as_str());
    }
    if info.fields.len() > 0 {
        def.append(write_body(&write_fields("  ", &info.fields)).as_str());
    } else if info.variants.len() > 0 {
        def.append(write_body(&write_variants(&info.variants)).as_str());
    }
    def
}

fn add_definitions(m: &ExtractedModule, out: &mut Vec<String>)
    ensures
        final(out).deep_view() == old(out).deep_view() + definitions(m.deep_view()),
{
    let ghost start = out.deep_view();
    let ghost all = definitions(m.deep_view());
    let mut i: usize = 0;
    assert(start + all.take(0) =~= start);
    while i < m.type_definitions.len()
        invariant
            i <= m.type_definitions.deep_view().len(),
            all == definitions(m.deep_view()),
            out.deep_view() == start + all.take(i as int),
        decreases m.type_definitions.deep_view().len() - i,
    {
        append_item(out, write_definition(m.type_definitions.key(i), m.type_definitions.value(i)));
        assert(start + all.take(i + 1) =~= (start + all.take(i as int)).push(all[i as int]));
        i += 1;
    }
    assert(all.take(all.len() as int) =~= all);
}

fn add_signatures(m: &ExtractedModule, public: bool, out: &mut Vec<String>)
    ensures
        final(out).deep_view() == old(out).deep_view() + signatures(
            m.deep_view(),
            public,
            m.deep_view().function_signatures.len() as int,
        ),
{
    let ghost start = out.deep_view();
    let ghost model = m.deep_view();
    let mut i: usize = 0;
    assert(start + Seq::<Seq<char>>::empty() =~= start);
    while i < m.function_signatures.len()
        invariant
            i <= m.function_signatures.deep_view().len(),
            model == m.deep_view(),
            out.deep_view() == start + signatures(model, public, i as int),
        decreases m.function_signatures.deep_view().len() - i,
    {
        let ghost before = signatures(model, public, i as int);
        let name = m.function_signatures.key(i).to_owned();
        let signature = m.function_signatures.value(i);
        assert(model.function_signatures[i as int] == (name@, signature@));
        if list_contains(m.public_functions.as_slice(), &name) == public {
            let mut line: String = if public {
                "pub ".to_owned()
            } else {
                String::new()
            };
            line.append(signature.as_str());
            assert(public || line@ =~= signature@);
            let ghost added = line@;
            append_item(out, line);
            assert((start + before).push(added) =~= start + before.push(added));
        }
        i += 1;
    }
}

fn add_comment_list(title: &str, items: &Vec<String>, out: &mut Vec<String>)
    ensures
        final(out).deep_view() == old(out).deep_view() + comment_list(title@, items.deep_view()),
{
    let ghost start = out.deep_view();
    if items.len() > 0 {
        let mut block = title.to_owned();
        block.append(
            text::join_strings(text::prefix_all("//   ", items).as_slice(), "\n").as_str(),
        );
        append_item(out, block);
    }
    assert(out.deep_view() =~= start + comment_list(title@, items.deep_view()));
}

/// Builds a summary of a module that fits in a budget of bytes. Definitions that do not fit
/// are left out whole.
pub fn summarize_extracted(extracted: &ExtractedModule, max_chars: usize) -> (r: String)
    ensures
        r@ == summary(extracted.deep_view(), max_chars as nat),
        vstd::utf8::encode_utf8(r@).len() <= max_chars,
{
    let ghost model = extracted.deep_view();
    let mut all: Vec<String> = Vec::new();
    add_definitions(extracted, &mut all);
    add_signatures(extracted, true, &mut all);
    add_signatures(extracted, false, &mut all);
    add_comment_list("// Imports:\n", &extracted.imports, &mut all);
    add_comment_list("// State variables:\n", &extracted.state_variables, &mut all);
    add_comment_list("// Events:\n", &extracted.events, &mut all);
    assert(all.deep_view() =~= blocks(model));
    let mut kept: Vec<String> = Vec::new();
    let mut left: usize = max_chars;
    let mut dropped: bool = false;
    let mut i: usize = 0;
    assert(kept.deep_view() =~= Seq::empty());
    while i < all.len()
        invariant
            i <= all@.len(),
            all.deep_view() == blocks(model),
            kept.deep_view() == fitting(blocks(model), max_chars as nat, i as int).kept,
            left == fitting(blocks(model), max_chars as nat, i as int).left,
            dropped == fitting(blocks(model), max_chars as nat, i as int).dropped,
        decreases all@.len() - i,
    {
        assert(all.deep_view()[i as int] == all@[i as int]@);
        let length: usize = all[i].as_str().as_bytes().len();
        if length < left {
            append_item(&mut kept, all[i].clone());
            left = left - length - 1;
        } else {
            dropped = true;
        }
        i += 1;
    }
    if dropped {
        let notice = "// ... (some definitions omitted to fit context window)".to_owned();
        if notice.as_str().as_bytes().len() <= left {
            append_item(&mut kept, notice);
        }
    }
    proof {
        summaries_fit(model, max_chars as nat);
    }
    text::join_strings(kept.as_slice(), "\n")
}

// ─── Laws ─────────────────────────────────────────────────────────────────────

/// What blocks cost together.
pub open spec fn total_cost(blocks: Seq<Seq<char>>) -> nat
    decreases blocks.len(),
{
    if blocks.len() == 0 {
        0
    } else {
        total_cost(blocks.drop_last()) + cost(blocks.last())
    }
}

/// The blocks that are kept take no more bytes than the budget allows.
pub proof fn kept_blocks_fit(blocks: Seq<Seq<char>>, budget: nat, k: int)
    requires
        0 <= k <= blocks.len(),
    ensures
        total_cost(fitting(blocks, budget, k).kept) + fitting(blocks, budget, k).left == budget,
        fitting(blocks, budget, k).left >= 0,
    decreases k,
{
    if k > 0 {
        kept_blocks_fit(blocks, budget, k - 1);
        let before = fitting(blocks, budget, k - 1).kept;
        let now = fitting(blocks, budget, k).kept;
        if now != before {
            assert(now.drop_last() =~= before);
        }
    }
}

/// No summary takes more bytes than its budget, a notice of what was left out counted in.
pub proof fn summaries_fit(m: ExtractedModuleModel, budget: nat)
    ensures
        vstd::utf8::encode_utf8(summary(m, budget)).len() <= budget,
{
    let all = blocks(m);
    let fit = fitting(all, budget, all.len() as int);
    let parts = shown(all, budget);
    kept_blocks_fit(all, budget, all.len() as int);
    lemma_joined_cost(parts);
    if parts != fit.kept {
        assert(parts.drop_last() =~= fit.kept);
        assert(parts.last() == omission());
    }
}

/// Joined blocks take what they cost, without the end of the last line.
proof fn lemma_joined_cost(parts: Seq<Seq<char>>)
    ensures
        parts.len() == 0 ==> vstd::utf8::encode_utf8(text::join(parts, "\n"@)).len() == 0,
        parts.len() > 0 ==> vstd::utf8::encode_utf8(text::join(parts, "\n"@)).len() + 1
            == total_cost(parts),
    decreases parts.len(),
{
    if parts.len() == 1 {
        assert(total_cost(parts.drop_last()) == 0);
    } else if parts.len() > 1 {
        let front = text::join(parts.drop_last(), "\n"@);
        lemma_joined_cost(parts.drop_last());
        reveal_strlit("\n");
        assert(vstd::utf8::is_ascii_chars("\n"@));
        vstd::utf8::is_ascii_chars_encode_utf8("\n"@);
        text::lemma_encoded_concat(front, "\n"@);
        text::lemma_encoded_concat(front + "\n"@, parts.last());
    }
}

/// Where all blocks fit, all are kept, and nothing is said to be omitted.
pub proof fn all_blocks_are_kept_if_they_fit(blocks: Seq<Seq<char>>, budget: nat, k: int)
    requires
        0 <= k <= blocks.len(),
        total_cost(blocks.take(k)) <= budget,
    ensures
        fitting(blocks, budget, k).kept == blocks.take(k),
        !fitting(blocks, budget, k).dropped,
    decreases k,
{
    if k > 0 {
        assert(blocks.take(k).drop_last() =~= blocks.take(k - 1));
        all_blocks_are_kept_if_they_fit(blocks, budget, k - 1);
        kept_blocks_fit(blocks, budget, k - 1);
        assert(blocks.take(k - 1).push(blocks[k - 1]) =~= blocks.take(k));
    } else {
        assert(blocks.take(0) =~= Seq::empty());
    }
}

} // verus!

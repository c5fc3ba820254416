//! What an extracted Solidity module holds of its source.
use vstd::prelude::*;

use super::solidity::{
    fallback_name, is_public_function, json_part, matched_module, named_module, node_signature,
    returns_text, solidity_matches, solidity_module, with_function_match, with_function_matches, with_node, with_nodes,
    written_signature, AstNodeModel, AstParameterModel, SolidityMatchesModel,
};
use super::{extractor_of, AnyExtractor, ExtractedModuleModel};
use crate::data::{lookup, lookup_after_insert};
use crate::pattern;
use crate::text;

verus! {

// ─── Syntax trees ─────────────────────────────────────────────────────────────

/// Whether the words for the kinds of nodes differ.
proof fn lemma_node_types()
    ensures
        "ContractDefinition"@.len() == 18,
        "FunctionDefinition"@.len() == 18,
        "ContractDefinition"@[0] == 'C',
        "FunctionDefinition"@[0] == 'F',
        "ModifierDefinition"@.len() == 18,
        "ModifierDefinition"@[0] == 'M',
        "EventDefinition"@.len() == 15,
        "ImportDirective"@.len() == 15,
        "EventDefinition"@[0] == 'E',
        "ImportDirective"@[0] == 'I',
        "VariableDeclaration"@.len() == 19,
{
    reveal_strlit("ContractDefinition");
    reveal_strlit("FunctionDefinition");
    reveal_strlit("ModifierDefinition");
    reveal_strlit("EventDefinition");
    reveal_strlit("ImportDirective");
    reveal_strlit("VariableDeclaration");
}

/// A function of a contract is known by its signature; it is public where it is declared public
/// or external, and private otherwise.
pub proof fn functions_have_their_visibility(
    m: ExtractedModuleModel,
    n: AstNodeModel,
    name: Seq<char>,
)
    requires
        n.node_type == "FunctionDefinition"@,
        n.name == Some(name),
        n.kind != Some("constructor"@),
        n.kind != Some("fallback"@),
        n.kind != Some("receive"@),
    ensures
        ({
            let after = with_node(m, n);
            &&& lookup(after.function_signatures, name) == Some(node_signature(n))
            &&& n.visibility == Some("public"@) || n.visibility == Some("external"@)
                ==> after.public_functions == m.public_functions.push(name)
                && after.private_functions == m.private_functions
            &&& n.visibility != Some("public"@) && n.visibility != Some("external"@)
                ==> after.private_functions == m.private_functions.push(name)
                && after.public_functions == m.public_functions
            &&& after.events == m.events
            &&& after.state_variables == m.state_variables
            &&& after.imports == m.imports
            &&& after.modifiers == m.modifiers
            &&& after.name == m.name
        }),
{
    lemma_node_types();
    lookup_after_insert(m.function_signatures, name, node_signature(n));
}

/// A constructor, a fallback and what receives payments are no functions of a module.
pub proof fn special_functions_are_left_out(m: ExtractedModuleModel, n: AstNodeModel)
    requires
        n.node_type == "FunctionDefinition"@,
        n.kind == Some("constructor"@) || n.kind == Some("fallback"@) || n.kind == Some(
            "receive"@,
        ),
    ensures
        with_node(m, n) == m,
{
    lemma_node_types();
}

/// Events, modifiers, state variables and imports are listed, each in its list.
pub proof fn members_are_listed(m: ExtractedModuleModel, n: AstNodeModel, name: Seq<char>)
    ensures
        n.node_type == "EventDefinition"@ && n.name == Some(name) ==> with_node(m, n) == (
        ExtractedModuleModel { events: m.events.push(name), ..m }),
        n.node_type == "ModifierDefinition"@ && n.name == Some(name) ==> with_node(m, n) == (
        ExtractedModuleModel { modifiers: m.modifiers.push(name), ..m }),
        n.node_type == "VariableDeclaration"@ && n.name == Some(name) ==> with_node(m, n) == (
        ExtractedModuleModel { state_variables: m.state_variables.push(name), ..m }),
        n.node_type == "ImportDirective"@ && n.absolute_path == Some(name) ==> with_node(m, n) == (
        ExtractedModuleModel { imports: m.imports.push(name), ..m }),
{
    lemma_node_types();
}

/// The first contract gives a module its name, and a file without a contract its stem; what a
/// contract holds is taken up, one part after the other.
pub proof fn contracts_name_modules(
    m: ExtractedModuleModel,
    n: AstNodeModel,
    name: Seq<char>,
    nodes: Seq<AstNodeModel>,
    stem: Seq<char>,
)
    requires
        n.node_type == "ContractDefinition"@,
        n.name == Some(name),
        n.nodes == Some(nodes),
    ensures
        m.name.len() == 0 ==> with_node(m, n) == with_nodes(
            ExtractedModuleModel { name, ..m },
            nodes,
            nodes.len() as int,
        ),
        m.name.len() > 0 ==> with_node(m, n) == with_nodes(m, nodes, nodes.len() as int),
        m.name.len() > 0 ==> named_module(m, Some(stem)) == m,
        m.name.len() == 0 ==> named_module(m, Some(stem)) == (ExtractedModuleModel {
            name: stem,
            ..m
        }),
{
    lemma_node_types();
}

/// What stands in a function, an event or a variable is no part of the module.
pub proof fn members_have_no_members(m: ExtractedModuleModel, n: AstNodeModel)
    requires
        n.node_type == "FunctionDefinition"@ || n.node_type == "EventDefinition"@ || n.node_type
            == "ModifierDefinition"@ || n.node_type == "VariableDeclaration"@ || n.node_type
            == "ImportDirective"@,
    ensures
        with_node(m, n) == with_node(m, AstNodeModel { nodes: None, ..n }),
{
}

/// A parameter is written by its type and its name; one without a name by its type alone.
pub proof fn parameters_are_written(p: AstParameterModel, t: Seq<char>)
    requires
        p.type_string == Some(t),
    ensures
        p.name.len() > 0 ==> super::solidity::parameter_text(p) == t + " "@ + p.name,
        p.name.len() == 0 ==> super::solidity::parameter_text(p) == t,
{
}

/// What a function returns is written behind an arrow: nothing, one type, or several in
/// parentheses.
pub proof fn returned_types_are_written(
    n: AstNodeModel,
    a: AstParameterModel,
    b: AstParameterModel,
    t: Seq<char>,
    u: Seq<char>,
)
    requires
        a.type_string == Some(t),
        b.type_string == Some(u),
    ensures
        returns_text(Some(seq![a])) == Some(t),
        returns_text(Some(seq![a, b])) == Some("("@ + t + ", "@ + u + ")"@),
        returns_text(Some(Seq::empty())) is None,
        returns_text(None) is None,
        n.parameters is None && n.return_parameters == Some(seq![a]) ==> node_signature(n)
            == "()"@ + " -> "@ + t,
        n.parameters == Some(seq![b]) && n.return_parameters is None && b.name.len() > 0
            ==> node_signature(n) == "("@ + u + " "@ + b.name + ")"@,
{
    let two = super::solidity::parameter_types(seq![a, b]);
    reveal_with_fuel(text::join, 3);
    assert(two =~= seq![t, u]);
    assert(two.drop_last() =~= seq![t]);
    assert(text::join(two, ", "@) =~= t + ", "@ + u);
    assert("("@ + text::join(two, ", "@) + ")"@ =~= "("@ + t + ", "@ + u + ")"@);
    let one = super::solidity::parameter_texts(seq![b]);
    if b.name.len() > 0 {
        assert(one =~= seq![u + " "@ + b.name]);
        assert("("@ + text::join(one, ", "@) + ")"@ =~= "("@ + u + " "@ + b.name + ")"@);
    }
    reveal_strlit("()");
    reveal_strlit("(");
    reveal_strlit(")");
    assert("("@ + Seq::empty() + ")"@ =~= "()"@);
}

// ─── Matches ──────────────────────────────────────────────────────────────────

/// A function that is found in a source text is known by its name and its signature; it is
/// public by its modifiers, or where nothing is said of it and there are interfaces.
pub proof fn found_functions_are_known(
    m: ExtractedModuleModel,
    captures: Seq<Option<Seq<char>>>,
    content: Seq<char>,
)
    ensures
        ({
            let after = with_function_match(m, captures, content);
            let name = pattern::group(captures, 1);
            let modifiers = pattern::group(captures, 3);
            let open = text::contains(modifiers, "public"@) || text::contains(
                modifiers,
                "external"@,
            );
            let shut = text::contains(modifiers, "private"@) || text::contains(
                modifiers,
                "internal"@,
            );
            let public = open || (!shut && text::contains(content, "interface"@));
            &&& lookup(after.function_signatures, name) is Some
            &&& public ==> after.public_functions == m.public_functions.push(name)
                && after.private_functions == m.private_functions
            &&& !public ==> after.private_functions == m.private_functions.push(name)
                && after.public_functions == m.public_functions
            &&& is_public_function(modifiers, content) == public
        }),
{
    let name = pattern::group(captures, 1);
    let sig = written_signature(
        pattern::group(captures, 2),
        super::solidity::optional_group(captures, 4),
    );
    lookup_after_insert(m.function_signatures, name, sig);
}

/// A signature holds the parameters as they are written, and what is returned behind an arrow,
/// if there is anything.
pub proof fn signatures_are_taken_from_the_source(params: Seq<char>, results: Seq<char>)
    ensures
        written_signature(params, None) == "("@ + text::trim(params) + ")"@,
        text::trim(results).len() == 0 ==> written_signature(params, Some(results)) == "("@
            + text::trim(params) + ")"@,
        text::trim(results).len() > 0 ==> written_signature(params, Some(results)) == "("@
            + text::trim(params) + ")"@ + " -> "@ + text::trim(results),
{
}

/// What is found is listed, each in its list: the first contract is the name of the module.
pub proof fn found_members_are_listed(
    stem: Option<Seq<char>>,
    path: Seq<char>,
    content: Seq<char>,
    found: SolidityMatchesModel,
    i: int,
)
    ensures
        ({
            let m = matched_module(stem, path, content, found);
            &&& m.language == "solidity"@
            &&& m.source_path == Some(path)
            &&& found.contracts.len() > 0 ==> m.name == pattern::group(found.contracts[0], 1)
            &&& found.contracts.len() == 0 ==> (stem matches Some(n) ==> m.name == n)
            &&& m.imports.len() == found.imports.len()
            &&& m.events.len() == found.events.len()
            &&& m.state_variables.len() == found.states.len()
            &&& m.modifiers.len() == found.modifiers.len()
            &&& 0 <= i < found.imports.len() ==> m.imports[i] == pattern::group(
                found.imports[i],
                1,
            )
            &&& 0 <= i < found.events.len() ==> m.events[i] == pattern::group(found.events[i], 1)
            &&& 0 <= i < found.states.len() ==> m.state_variables[i] == pattern::group(
                found.states[i],
                2,
            )
            &&& 0 <= i < found.modifiers.len() ==> m.modifiers[i] == pattern::group(
                found.modifiers[i],
                1,
            )
        }),
{
    lemma_functions_keep(
        ExtractedModuleModel {
            name: if found.contracts.len() > 0 {
                pattern::group(found.contracts[0], 1)
            } else {
                super::solidity::fallback_name(stem)
            },
            ..solidity_module(path)
        },
        found.functions,
        content,
        found.functions.len() as int,
    );
}

proof fn lemma_functions_keep(
    m: ExtractedModuleModel,
    matches: Seq<Seq<Option<Seq<char>>>>,
    content: Seq<char>,
    k: int,
)
    ensures
        with_function_matches(m, matches, content, k).name == m.name,
        with_function_matches(m, matches, content, k).language == m.language,
        with_function_matches(m, matches, content, k).source_path == m.source_path,
    decreases k,
{
    if 0 < k <= matches.len() {
        lemma_functions_keep(m, matches, content, k - 1);
    }
}

/// Every function that is found is listed, as public or as private.
pub proof fn found_functions_are_listed(
    m: ExtractedModuleModel,
    matches: Seq<Seq<Option<Seq<char>>>>,
    content: Seq<char>,
    k: int,
    i: int,
)
    requires
        0 <= i < k <= matches.len(),
    ensures
        ({
            let after = with_function_matches(m, matches, content, k);
            let name = pattern::group(matches[i], 1);
            if is_public_function(pattern::group(matches[i], 3), content) {
                after.public_functions.contains(name)
            } else {
                after.private_functions.contains(name)
            }
        }),
    decreases k,
{
    let before = with_function_matches(m, matches, content, k - 1);
    let after = with_function_matches(m, matches, content, k);
    let name = pattern::group(matches[i], 1);
    if i < k - 1 {
        found_functions_are_listed(m, matches, content, k - 1, i);
        if is_public_function(pattern::group(matches[i], 3), content) {
            let j = choose|j: int|
                0 <= j < before.public_functions.len() && before.public_functions[j] == name;
            assert(after.public_functions[j] == name);
        } else {
            let j = choose|j: int|
                0 <= j < before.private_functions.len() && before.private_functions[j] == name;
            assert(after.private_functions[j] == name);
        }
    } else if is_public_function(pattern::group(matches[i], 3), content) {
        assert(after.public_functions[before.public_functions.len() as int] == name);
    } else {
        assert(after.private_functions[before.private_functions.len() as int] == name);
    }
}

/// What the compiler writes before its JSON is left out.
pub proof fn notices_before_the_output_are_left_out(notice: Seq<char>, json: Seq<char>)
    requires
        text::lacks(notice, '{'),
        json.len() > 0,
        json[0] == '{',
    ensures
        json_part(notice + json) == Some(json),
{
    let s = notice + json;
    lemma_first_brace(s, 0, notice.len() as int);
    assert(s.skip(notice.len() as int) =~= json);
}

proof fn lemma_first_brace(s: Seq<char>, from: int, k: int)
    requires
        0 <= from <= k < s.len(),
        s[k] == '{',
        forall|j: int| from <= j < k ==> #[trigger] s[j] != '{',
    ensures
        text::find_char_from(s, '{', from) == Some(k),
    decreases k - from,
{
    if from < k {
        assert(s[from] != '{');
        lemma_first_brace(s, from + 1, k);
    }
}

// ─── Languages ────────────────────────────────────────────────────────────────

/// Each language has its extractor, by its name or its suffix, however it is cased.
pub proof fn languages_have_their_extractors(language: Seq<char>)
    ensures
        ({
            let word = text::lowercase(language);
            let x = extractor_of(language);
            &&& (x matches Some(AnyExtractor::Solidity(_))) <==> (word == "solidity"@ || word
                == "sol"@)
            &&& (x matches Some(AnyExtractor::Rust(_))) <==> (word == "rust"@ || word == "rs"@)
            &&& (x matches Some(AnyExtractor::Flow9(_))) <==> (word == "flow9"@ || word == "flow"@)
        }),
{
    reveal_strlit("solidity");
    reveal_strlit("sol");
    reveal_strlit("rust");
    reveal_strlit("rs");
    reveal_strlit("flow9");
    reveal_strlit("flow");
    assert("solidity"@.len() == 8 && "sol"@.len() == 3 && "rust"@.len() == 4 && "rs"@.len() == 2);
    assert("flow9"@.len() == 5 && "flow"@.len() == 4);
    assert("rust"@[0] == 'r' && "flow"@[0] == 'f');
}

/// Without a contract a module is called like its file, and where the file has no name either,
/// `Unknown`.
pub proof fn files_name_modules_otherwise(
    stem: Option<Seq<char>>,
    path: Seq<char>,
    content: Seq<char>,
    found: SolidityMatchesModel,
)
    requires
        found.contracts.len() == 0,
    ensures
        stem matches Some(n) ==> matched_module(stem, path, content, found).name == n,
        stem is None ==> matched_module(stem, path, content, found).name == "Unknown"@,
{
    lemma_same_name(
        ExtractedModuleModel { name: fallback_name(stem), ..solidity_module(path) },
        found.functions,
        content,
        found.functions.len() as int,
    );
}

proof fn lemma_same_name(
    m: ExtractedModuleModel,
    matches: Seq<Seq<Option<Seq<char>>>>,
    content: Seq<char>,
    k: int,
)
    ensures
        with_function_matches(m, matches, content, k).name == m.name,
    decreases k,
{
    if 0 < k <= matches.len() {
        lemma_same_name(m, matches, content, k - 1);
    }
}

/// Names are looked for by the words before them: a contract, an interface or a library, an event,
/// a modifier, and a state variable behind its type at the start of a line.
pub proof fn names_are_looked_for_by_words(content: Seq<char>, found: SolidityMatchesModel)
    requires
        solidity_matches(content) == Ok::<SolidityMatchesModel, Seq<char>>(found),
    ensures
        pattern::regex_captures(r"(?:contract|interface|library)\s+(\w+)"@, content) == Ok::<
            Seq<Seq<Option<Seq<char>>>>,
            Seq<char>,
        >(found.contracts),
        pattern::regex_captures(r"event\s+(\w+)"@, content) == Ok::<
            Seq<Seq<Option<Seq<char>>>>,
            Seq<char>,
        >(found.events),
        pattern::regex_captures(r"modifier\s+(\w+)"@, content) == Ok::<
            Seq<Seq<Option<Seq<char>>>>,
            Seq<char>,
        >(found.modifiers),
        pattern::regex_captures(
            r"(?m)^\s*(mapping|address|uint\d*|int\d*|bytes\d*|string|bool)\s+(?:public\s+|private\s+|internal\s+)?(\w+)\s*[;=]"@,
            content,
        ) == Ok::<Seq<Seq<Option<Seq<char>>>>, Seq<char>>(found.states),
        pattern::regex_captures(
            r#"import\s+(?:\{[^}]+\}\s+from\s+)?["']([^"']+)["']"#@,
            content,
        ) == Ok::<Seq<Seq<Option<Seq<char>>>>, Seq<char>>(found.imports),
        pattern::regex_captures(
            r"function\s+(\w+)\s*\(([^)]*)\)\s*((?:public|external|internal|private|view|pure|payable|virtual|override|\s)*)(?:returns\s*\(([^)]*)\))?"@,
            content,
        ) == Ok::<Seq<Seq<Option<Seq<char>>>>, Seq<char>>(found.functions),
{
}

} // verus!

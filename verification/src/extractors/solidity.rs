//! Extraction from Solidity: from the syntax tree of the compiler, or from the source text by
//! regular expressions.
use vstd::prelude::*;

use super::{blank_module, ExtractedModule, ExtractedModuleModel};
use crate::data::{append_item, with_entry};
use crate::pattern;
use crate::text;

verus! {

// ─── Syntax trees ─────────────────────────────────────────────────────────────

/// A parameter in the compiler's syntax tree.
#[derive(Debug)]
pub struct AstParameter {
    pub name: String,
    pub type_string: Option<String>,
}

/// What an [`AstParameter`] holds.
#[verifier::ext_equal]
pub struct AstParameterModel {
    pub name: Seq<char>,
    pub type_string: Option<Seq<char>>,
}

impl DeepView for AstParameter {
    type V = AstParameterModel;

    open spec fn deep_view(&self) -> AstParameterModel {
        AstParameterModel { name: self.name@, type_string: self.type_string.deep_view() }
    }
}

/// A node of the compiler's syntax tree, told apart by its type.
#[derive(Debug)]
pub struct AstNode {
    pub node_type: String,
    pub name: Option<String>,
    pub visibility: Option<String>,
    pub kind: Option<String>,
    pub absolute_path: Option<String>,
    pub parameters: Option<Vec<AstParameter>>,
    pub return_parameters: Option<Vec<AstParameter>>,
    pub nodes: Option<Vec<AstNode>>,
}

/// What an [`AstNode`] holds.
#[verifier::ext_equal]
pub struct AstNodeModel {
    pub node_type: Seq<char>,
    pub name: Option<Seq<char>>,
    pub visibility: Option<Seq<char>>,
    pub kind: Option<Seq<char>>,
    pub absolute_path: Option<Seq<char>>,
    pub parameters: Option<Seq<AstParameterModel>>,
    pub return_parameters: Option<Seq<AstParameterModel>>,
    pub nodes: Option<Seq<AstNodeModel>>,
}

pub open spec fn ast_model(n: AstNode) -> AstNodeModel
    decreases n,
{
    AstNodeModel {
        node_type: n.node_type@,
        name: n.name.deep_view(),
        visibility: n.visibility.deep_view(),
        kind: n.kind.deep_view(),
        absolute_path: n.absolute_path.deep_view(),
        parameters: n.parameters.deep_view(),
        return_parameters: n.return_parameters.deep_view(),
        nodes: match n.nodes {
            Some(nodes) => Some(ast_models(nodes)),
            None => None,
        },
    }
}

pub open spec fn ast_models(ns: Vec<AstNode>) -> Seq<AstNodeModel>
    decreases ns,
{
    Seq::new(
        ns@.len(),
        |i: int|
            if 0 <= i < ns@.len() {
                ast_model(ns@[i])
            } else {
                arbitrary()
            },
    )
}

impl DeepView for AstNode {
    type V = AstNodeModel;

    open spec fn deep_view(&self) -> AstNodeModel {
        ast_model(*self)
    }
}

proof fn lemma_ast_model_of_nodes(n: AstNode)
    ensures
        ast_model(n).nodes == n.nodes.deep_view(),
{
    reveal_with_fuel(ast_model, 2);
    reveal_with_fuel(ast_models, 2);
    match n.nodes {
        Some(nodes) => {
            assert(ast_models(nodes) =~= nodes.deep_view());
        },
        None => {},
    }
}

/// The type of a parameter, as far as the compiler told it.
pub open spec fn parameter_type(p: AstParameterModel) -> Seq<char> {
    match p.type_string {
        Some(t) => t,
        None => "unknown"@,
    }
}

pub open spec fn parameter_text(p: AstParameterModel) -> Seq<char> {
    if p.name.len() == 0 {
        parameter_type(p)
    } else {
        parameter_type(p) + " "@ + p.name
    }
}

pub open spec fn parameter_texts(ps: Seq<AstParameterModel>) -> Seq<Seq<char>> {
    ps.map_values(|p: AstParameterModel| parameter_text(p))
}

pub open spec fn parameter_types(ps: Seq<AstParameterModel>) -> Seq<Seq<char>> {
    ps.map_values(|p: AstParameterModel| parameter_type(p))
}

/// What a function gives back: nothing, one type, or several in parentheses.
pub open spec fn returns_text(ps: Option<Seq<AstParameterModel>>) -> Option<Seq<char>> {
    match ps {
        None => None,
        Some(ps) => if ps.len() == 0 {
            None
        } else if ps.len() == 1 {
            Some(parameter_type(ps[0]))
        } else {
            Some("("@ + text::join(parameter_types(ps), ", "@) + ")"@)
        },
    }
}

/// The signature of a function node.
pub open spec fn node_signature(n: AstNodeModel) -> Seq<char> {
    let params = match n.parameters {
        Some(ps) => text::join(parameter_texts(ps), ", "@),
        None => Seq::empty(),
    };
    let head = "("@ + params + ")"@;
    match returns_text(n.return_parameters) {
        Some(ret) => head + " -> "@ + ret,
        None => head,
    }
}

fn get_parameter_type(p: &AstParameter) -> (r: &str)
    ensures
        r@ == parameter_type(p.deep_view()),
{
    match &p.type_string {
        Some(t) => t.as_str(),
        None => "unknown",
    }
}

fn list_parameter_texts(ps: &Vec<AstParameter>) -> (r: Vec<String>)
    ensures
        r.deep_view() == parameter_texts(ps.deep_view()),
{
    let mut out: Vec<String> = Vec::new();
    let ghost all = parameter_texts(ps.deep_view());
    let mut i: usize = 0;
    while i < ps.len()
        invariant
            i <= ps@.len(),
            all == parameter_texts(ps.deep_view()),
            out@.len() == i,
            forall|j: int| 0 <= j < i ==> (#[trigger] out@[j])@ == all[j],
        decreases ps@.len() - i,
    {
        let p = &ps[i];
        assert(ps.deep_view()[i as int] == p.deep_view());
        let mut written = get_parameter_type(p).to_owned();
        if !p.name.as_str().is_empty() {
            written.append(" ");
            written.append(p.name.as_str());
        }
        out.push(written);
        i += 1;
    }
    assert(out.deep_view() =~= all);
    out
}

fn list_parameter_types(ps: &Vec<AstParameter>) -> (r: Vec<String>)
    ensures
        r.deep_view() == parameter_types(ps.deep_view()),
{
    let mut out: Vec<String> = Vec::new();
    let ghost all = parameter_types(ps.deep_view());
    let mut i: usize = 0;
    while i < ps.len()
        invariant
            i <= ps@.len(),
            all == parameter_types(ps.deep_view()),
            out@.len() == i,
            forall|j: int| 0 <= j < i ==> (#[trigger] out@[j])@ == all[j],
        decreases ps@.len() - i,
    {
        assert(ps.deep_view()[i as int] == ps@[i as int].deep_view());
        out.push(get_parameter_type(&ps[i]).to_owned());
        i += 1;
    }
    assert(out.deep_view() =~= all);
    out
}

fn format_returns(ps: &Option<Vec<AstParameter>>) -> (r: Option<String>)
    ensures
        r.deep_view() == returns_text(ps.deep_view()),
{
    match ps {
        None => None,
        Some(ps) => {
            if ps.len() == 0 {
                None
            } else if ps.len() == 1 {
                assert(ps.deep_view()[0] == ps@[0].deep_view());
                Some(get_parameter_type(&ps[0]).to_owned())
            } else {
                let mut out = "(".to_owned();
                let types = list_parameter_types(ps);
                out.append(text::join_strings(types.as_slice(), ", ").as_str());
                out.append(")");
                Some(out)
            }
        },
    }
}

/// The signature of a function node.
pub fn format_function_signature(node: &AstNode) -> (r: String)
    ensures
        r@ == node_signature(node.deep_view()),
{
    let mut out = "(".to_owned();
    match &node.parameters {
        Some(ps) => {
            let texts = list_parameter_texts(ps);
            out.append(text::join_strings(texts.as_slice(), ", ").as_str());
        },
        None => {
            assert("("@ + Seq::empty() =~= "("@);
        },
    }
    out.append(")");
    match format_returns(&node.return_parameters) {
        Some(ret) => {
            out.append(" -> ");
            out.append(ret.as_str());
        },
        None => {},
    }
    out
}

pub open spec fn is_special_function(kind: Option<Seq<char>>) -> bool {
    kind == Some("constructor"@) || kind == Some("fallback"@) || kind == Some("receive"@)
}

pub open spec fn is_public_visibility(visibility: Option<Seq<char>>) -> bool {
    visibility == Some("public"@) || visibility == Some("external"@)
}

/// The module with what a function node adds: nothing for a constructor or a fallback.
pub open spec fn with_function_node(m: ExtractedModuleModel, n: AstNodeModel, name: Seq<char>) ->
    ExtractedModuleModel {
    if is_special_function(n.kind) {
        m
    } else {
        let described = ExtractedModuleModel {
            function_signatures: with_entry(m.function_signatures, name, node_signature(n)),
            ..m
        };
        if is_public_visibility(n.visibility) {
            ExtractedModuleModel { public_functions: m.public_functions.push(name), ..described }
        } else {
            ExtractedModuleModel { private_functions: m.private_functions.push(name), ..described }
        }
    }
}

/// The module with the name of a contract, unless it has a name already.
pub open spec fn with_contract_name(m: ExtractedModuleModel, name: Option<Seq<char>>) ->
    ExtractedModuleModel {
    match name {
        Some(n) => if m.name.len() == 0 {
            ExtractedModuleModel { name: n, ..m }
        } else {
            m
        },
        None => m,
    }
}

/// What a node by itself adds to a module, without its children.
pub open spec fn with_node_itself(m: ExtractedModuleModel, n: AstNodeModel) -> ExtractedModuleModel {
    if n.node_type == "ContractDefinition"@ {
        with_contract_name(m, n.name)
    } else if n.node_type == "FunctionDefinition"@ {
        match n.name {
            Some(name) => with_function_node(m, n, name),
            None => m,
        }
    } else if n.node_type == "EventDefinition"@ {
        match n.name {
            Some(name) => ExtractedModuleModel { events: m.events.push(name), ..m },
            None => m,
        }
    } else if n.node_type == "ModifierDefinition"@ {
        match n.name {
            Some(name) => ExtractedModuleModel { modifiers: m.modifiers.push(name), ..m },
            None => m,
        }
    } else if n.node_type == "VariableDeclaration"@ {
        match n.name {
            Some(name) => ExtractedModuleModel { state_variables: m.state_variables.push(name), ..m },
            None => m,
        }
    } else if n.node_type == "ImportDirective"@ {
        match n.absolute_path {
            Some(path) => ExtractedModuleModel { imports: m.imports.push(path), ..m },
            None => m,
        }
    } else {
        m
    }
}

/// Whether the children of a node are no part of what is extracted.
pub open spec fn is_leaf(n: AstNodeModel) -> bool {
    ||| n.node_type == "FunctionDefinition"@
    ||| n.node_type == "EventDefinition"@
    ||| n.node_type == "ModifierDefinition"@
    ||| n.node_type == "VariableDeclaration"@
    ||| n.node_type == "ImportDirective"@
}

/// The module with what a node and its children add to it.
pub open spec fn with_node(m: ExtractedModuleModel, n: AstNodeModel) -> ExtractedModuleModel
    decreases n, 0int,
{
    let own = with_node_itself(m, n);
    match n.nodes {
        Some(nodes) => if is_leaf(n) {
            own
        } else {
            with_nodes(own, nodes, nodes.len() as int)
        },
        None => own,
    }
}

/// The module with what the first `k` nodes add to it.
pub open spec fn with_nodes(m: ExtractedModuleModel, ns: Seq<AstNodeModel>, k: int) ->
    ExtractedModuleModel
    decreases ns, k,
{
    if k <= 0 || k > ns.len() {
        m
    } else {
        with_node(with_nodes(m, ns, k - 1), ns[k - 1])
    }
}

fn is_text(t: &Option<String>, wanted: &str) -> (b: bool)
    ensures
        b == (t.deep_view() == Some(wanted@)),
{
    match t {
        Some(s) => text::same(s.as_str(), wanted),
        None => false,
    }
}

fn add_function_node(module: &mut ExtractedModule, node: &AstNode, name: &String)
    ensures
        final(module).deep_view() == with_function_node(
            old(module).deep_view(),
            node.deep_view(),
            name@,
        ),
        old(module).wf() ==> final(module).wf(),
{
    if is_text(&node.kind, "constructor") || is_text(&node.kind, "fallback") || is_text(
        &node.kind,
        "receive",
    ) {
        return;
    }
    let signature = format_function_signature(node);
    module.function_signatures.insert(name.clone(), signature);
    if is_text(&node.visibility, "public") || is_text(&node.visibility, "external") {
        append_item(&mut module.public_functions, name.clone());
    } else {
        append_item(&mut module.private_functions, name.clone());
    }
}

fn add_node_itself(node: &AstNode, module: &mut ExtractedModule) -> (leaf: bool)
    ensures
        final(module).deep_view() == with_node_itself(old(module).deep_view(), node.deep_view()),
        leaf == is_leaf(node.deep_view()),
        old(module).wf() ==> final(module).wf(),
{
    let node_type = node.node_type.as_str();
    let contract = text::same(node_type, "ContractDefinition");
    let function = text::same(node_type, "FunctionDefinition");
    let event = text::same(node_type, "EventDefinition");
    let modifier = text::same(node_type, "ModifierDefinition");
    let variable = text::same(node_type, "VariableDeclaration");
    let import = text::same(node_type, "ImportDirective");
    if contract {
        if let Some(name) = &node.name {
            if module.name.as_str().is_empty() {
                module.name = name.clone();
            }
        }
    } else if function {
        if let Some(name) = &node.name {
            add_function_node(module, node, name);
        }
    } else if event {
        if let Some(name) = &node.name {
            append_item(&mut module.events, name.clone());
        }
    } else if modifier {
        if let Some(name) = &node.name {
            append_item(&mut module.modifiers, name.clone());
        }
    } else if variable {
        if let Some(name) = &node.name {
            append_item(&mut module.state_variables, name.clone());
        }
    } else if import {
        if let Some(path) = &node.absolute_path {
            append_item(&mut module.imports, path.clone());
        }
    }
    function || event || modifier || variable || import
}

/// Adds what a node and its children hold to a module.
pub fn extract_from_node(node: &AstNode, module: &mut ExtractedModule)
    ensures
        final(module).deep_view() == with_node(old(module).deep_view(), node.deep_view()),
        old(module).wf() ==> final(module).wf(),
    decreases node,
{
    proof {
        lemma_ast_model_of_nodes(*node);
        reveal_with_fuel(with_node, 2);
        reveal_with_fuel(with_nodes, 2);
    }
    let leaf = add_node_itself(node, module);
    if let Some(nodes) = &node.nodes {
        if !leaf {
            extract_from_nodes(nodes, module);
        }
    }
}

fn extract_from_nodes(nodes: &Vec<AstNode>, module: &mut ExtractedModule)
    ensures
        final(module).deep_view() == with_nodes(
            old(module).deep_view(),
            nodes.deep_view(),
            nodes@.len() as int,
        ),
        old(module).wf() ==> final(module).wf(),
    decreases nodes,
{
    let ghost before = module.deep_view();
    let ghost good = module.wf();
    let mut i: usize = 0;
    while i < nodes.len()
        invariant
            i <= nodes@.len(),
            module.deep_view() == with_nodes(before, nodes.deep_view(), i as int),
            good ==> module.wf(),
        decreases nodes@.len() - i,
    {
        assert(nodes.deep_view()[i as int] == nodes@[i as int].deep_view());
        proof {
            reveal_with_fuel(with_nodes, 2);
        }
        extract_from_node(&nodes[i], module);
        i += 1;
    }
}

/// The name of a file without a contract.
pub open spec fn fallback_name(stem: Option<Seq<char>>) -> Seq<char> {
    match stem {
        Some(name) => name,
        None => "Unknown"@,
    }
}

/// A Solidity module of which only the file is known.
pub open spec fn solidity_module(path: Seq<char>) -> ExtractedModuleModel {
    ExtractedModuleModel { language: "solidity"@, source_path: Some(path), ..blank_module() }
}

/// The module with a name: that of a contract, or else that of the file.
pub open spec fn named_module(m: ExtractedModuleModel, stem: Option<Seq<char>>) ->
    ExtractedModuleModel {
    if m.name.len() == 0 {
        ExtractedModuleModel { name: fallback_name(stem), ..m }
    } else {
        m
    }
}

fn make_fallback_name(stem: Option<&str>) -> (r: String)
    ensures
        r@ == fallback_name(stem.deep_view()),
{
    match stem {
        Some(name) => name.to_owned(),
        None => "Unknown".to_owned(),
    }
}

fn start_solidity_module(path: &str) -> (r: ExtractedModule)
    ensures
        r.deep_view() == solidity_module(path@),
        r.wf(),
{
    let mut r: ExtractedModule = Default::default();
    r.language = "solidity".to_owned();
    r.source_path = Some(path.to_owned());
    r
}

/// Extracts a module from the syntax trees of its source units.
pub fn extract_from_solc_output(units: &Vec<AstNode>, stem: Option<&str>, path: &str) -> (r:
    ExtractedModule)
    ensures
        r.deep_view() == named_module(
            with_nodes(solidity_module(path@), units.deep_view(), units@.len() as int),
            stem.deep_view(),
        ),
        r.wf(),
{
    let mut module = start_solidity_module(path);
    extract_from_nodes(units, &mut module);
    if module.name.as_str().is_empty() {
        module.name = make_fallback_name(stem);
    }
    module
}

/// Extracts a module from the syntax tree of its only source unit.
pub fn extract_from_ast_node(ast: &AstNode, stem: Option<&str>, path: &str) -> (r: ExtractedModule)
    ensures
        r.deep_view() == named_module(
            with_node(solidity_module(path@), ast.deep_view()),
            stem.deep_view(),
        ),
        r.wf(),
{
    let mut module = start_solidity_module(path);
    extract_from_node(ast, &mut module);
    if module.name.as_str().is_empty() {
        module.name = make_fallback_name(stem);
    }
    module
}

/// The part of the compiler's output that is JSON, which starts at the first brace.
pub open spec fn json_part(output: Seq<char>) -> Option<Seq<char>> {
    match text::find_char_from(output, '{', 0) {
        Some(k) => Some(output.skip(k)),
        None => None,
    }
}

pub fn find_json(output: &str) -> (r: Option<String>)
    ensures
        r.deep_view() == json_part(output@),
{
    let chars = text::chars_of(output);
    match text::find_char(chars.as_slice(), '{', 0) {
        Some(k) => {
            assert(chars@.skip(k as int) =~= chars@.subrange(k as int, chars@.len() as int));
            Some(text::piece(chars.as_slice(), k, chars.len()))
        },
        None => None,
    }
}

// ─── Regular expressions ──────────────────────────────────────────────────────

/// What the regular expressions found in a source text.
pub struct SolidityMatches {
    pub contracts: Vec<Vec<Option<String>>>,
    pub functions: Vec<Vec<Option<String>>>,
    pub imports: Vec<Vec<Option<String>>>,
    pub events: Vec<Vec<Option<String>>>,
    pub states: Vec<Vec<Option<String>>>,
    pub modifiers: Vec<Vec<Option<String>>>,
}

/// What a [`SolidityMatches`] holds.
#[verifier::ext_equal]
pub struct SolidityMatchesModel {
    pub contracts: Seq<Seq<Option<Seq<char>>>>,
    pub functions: Seq<Seq<Option<Seq<char>>>>,
    pub imports: Seq<Seq<Option<Seq<char>>>>,
    pub events: Seq<Seq<Option<Seq<char>>>>,
    pub states: Seq<Seq<Option<Seq<char>>>>,
    pub modifiers: Seq<Seq<Option<Seq<char>>>>,
}

impl DeepView for SolidityMatches {
    type V = SolidityMatchesModel;

    open spec fn deep_view(&self) -> SolidityMatchesModel {
        SolidityMatchesModel {
            contracts: self.contracts.deep_view(),
            functions: self.functions.deep_view(),
            imports: self.imports.deep_view(),
            events: self.events.deep_view(),
            states: self.states.deep_view(),
            modifiers: self.modifiers.deep_view(),
        }
    }
}

/// The signature of a function from its parameters and its return types, as they are written.
pub open spec fn written_signature(params: Seq<char>, results: Option<Seq<char>>) -> Seq<char> {
    let head = "("@ + text::trim(params) + ")"@;
    match results {
        Some(r) => if text::trim(r).len() == 0 {
            head
        } else {
            head + " -> "@ + text::trim(r)
        },
        None => head,
    }
}

/// The optional group of a match.
pub open spec fn optional_group(captures: Seq<Option<Seq<char>>>, i: int) -> Option<Seq<char>> {
    if 0 <= i < captures.len() {
        captures[i]
    } else {
        None
    }
}

/// Whether a function is public by its modifiers. Without a word about it, it is public where
/// the source holds an interface.
pub open spec fn is_public_function(modifiers: Seq<char>, content: Seq<char>) -> bool {
    if text::contains(modifiers, "public"@) || text::contains(modifiers, "external"@) {
        true
    } else if text::contains(modifiers, "private"@) || text::contains(modifiers, "internal"@) {
        false
    } else {
        text::contains(content, "interface"@)
    }
}

/// The module with a function that was found in the source: its name, parameters, modifiers
/// and return types are the groups of a match.
pub open spec fn with_function_match(
    m: ExtractedModuleModel,
    captures: Seq<Option<Seq<char>>>,
    content: Seq<char>,
) -> ExtractedModuleModel {
    let name = pattern::group(captures, 1);
    let described = ExtractedModuleModel {
        function_signatures: with_entry(
            m.function_signatures,
            name,
            written_signature(pattern::group(captures, 2), optional_group(captures, 4)),
        ),
        ..m
    };
    if is_public_function(pattern::group(captures, 3), content) {
        ExtractedModuleModel { public_functions: m.public_functions.push(name), ..described }
    } else {
        ExtractedModuleModel { private_functions: m.private_functions.push(name), ..described }
    }
}

/// The module with the functions of the first `k` matches.
pub open spec fn with_function_matches(
    m: ExtractedModuleModel,
    matches: Seq<Seq<Option<Seq<char>>>>,
    content: Seq<char>,
    k: int,
) -> ExtractedModuleModel
    decreases k,
{
    if k <= 0 || k > matches.len() {
        m
    } else {
        with_function_match(
            with_function_matches(m, matches, content, k - 1),
            matches[k - 1],
            content,
        )
    }
}

/// The module that the matches in a source text make up.
pub open spec fn matched_module(
    stem: Option<Seq<char>>,
    path: Seq<char>,
    content: Seq<char>,
    found: SolidityMatchesModel,
) -> ExtractedModuleModel {
    let named = ExtractedModuleModel {
        name: if found.contracts.len() > 0 {
            pattern::group(found.contracts[0], 1)
        } else {
            fallback_name(stem)
        },
        ..solidity_module(path)
    };
    ExtractedModuleModel {
        imports: pattern::group_of_all(found.imports, 1),
        events: pattern::group_of_all(found.events, 1),
        state_variables: pattern::group_of_all(found.states, 2),
        modifiers: pattern::group_of_all(found.modifiers, 1),
        ..with_function_matches(named, found.functions, content, found.functions.len() as int)
    }
}

fn make_written_signature(params: &str, results: &Option<String>) -> (r: String)
    ensures
        r@ == written_signature(params@, results.deep_view()),
{
    let mut out = "(".to_owned();
    out.append(text::trimmed(params).as_str());
    out.append(")");
    match results {
        Some(r) => {
            let ret = text::trimmed(r.as_str());
            if !ret.as_str().is_empty() {
                out.append(" -> ");
                out.append(ret.as_str());
            }
        },
        None => {},
    }
    out
}

fn public_by_modifiers(modifiers: &str, content: &str) -> (b: bool)
    ensures
        b == is_public_function(modifiers@, content@),
{
    if text::text_contains(modifiers, "public") || text::text_contains(modifiers, "external") {
        true
    } else if text::text_contains(modifiers, "private") || text::text_contains(
        modifiers,
        "internal",
    ) {
        false
    } else {
        text::text_contains(content, "interface")
    }
}

fn get_optional_group(captures: &Vec<Option<String>>, i: usize) -> (r: Option<String>)
    ensures
        r.deep_view() == optional_group(captures.deep_view(), i as int),
{
    if i < captures.len() {
        assert(captures.deep_view()[i as int] == captures@[i as int].deep_view());
        match &captures[i] {
            Some(s) => Some(s.clone()),
            None => None,
        }
    } else {
        None
    }
}

fn add_function_matches(
    module: &mut ExtractedModule,
    matches: &Vec<Vec<Option<String>>>,
    content: &str,
)
    ensures
        final(module).deep_view() == with_function_matches(
            old(module).deep_view(),
            matches.deep_view(),
            content@,
            matches@.len() as int,
        ),
        old(module).wf() ==> final(module).wf(),
{
    let ghost before = module.deep_view();
    let ghost good = module.wf();
    let mut i: usize = 0;
    while i < matches.len()
        invariant
            i <= matches@.len(),
            module.deep_view() == with_function_matches(
                before,
                matches.deep_view(),
                content@,
                i as int,
            ),
            good ==> module.wf(),
        decreases matches@.len() - i,
    {
        let captures = &matches[i];
        assert(matches.deep_view()[i as int] == captures.deep_view());
        let name = pattern::get_group(captures, 1);
        let params = pattern::get_group(captures, 2);
        let modifiers = pattern::get_group(captures, 3);
        let results = get_optional_group(captures, 4);
        let signature = make_written_signature(params.as_str(), &results);
        module.function_signatures.insert(name.clone(), signature);
        if public_by_modifiers(modifiers.as_str(), content) {
            append_item(&mut module.public_functions, name);
        } else {
            append_item(&mut module.private_functions, name);
        }
        i += 1;
    }
}

/// Makes up a module from the matches in a source text.
pub fn assemble_module(stem: Option<&str>, path: &str, content: &str, found: &SolidityMatches) -> (r:
    ExtractedModule)
    ensures
        r.deep_view() == matched_module(
            stem.deep_view(),
            path@,
            content@,
            found.deep_view(),
        ),
        r.wf(),
{
    let mut module = start_solidity_module(path);
    if found.contracts.len() > 0 {
        assert(found.contracts.deep_view()[0] == found.contracts@[0].deep_view());
        module.name = pattern::get_group(&found.contracts[0], 1);
    } else {
        module.name = make_fallback_name(stem);
    }
    add_function_matches(&mut module, &found.functions, content);
    module.imports = pattern::get_group_of_all(&found.imports, 1);
    module.events = pattern::get_group_of_all(&found.events, 1);
    module.state_variables = pattern::get_group_of_all(&found.states, 2);
    module.modifiers = pattern::get_group_of_all(&found.modifiers, 1);
    module
}

pub open spec fn contract_pattern() -> Seq<char> {
    r"(?:contract|interface|library)\s+(\w+)"@
}

pub open spec fn function_pattern() -> Seq<char> {
    r"function\s+(\w+)\s*\(([^)]*)\)\s*((?:public|external|internal|private|view|pure|payable|virtual|override|\s)*)(?:returns\s*\(([^)]*)\))?"@
}

pub open spec fn import_pattern() -> Seq<char> {
    r#"import\s+(?:\{[^}]+\}\s+from\s+)?["']([^"']+)["']"#@
}

pub open spec fn event_pattern() -> Seq<char> {
    r"event\s+(\w+)"@
}

pub open spec fn state_pattern() -> Seq<char> {
    r"(?m)^\s*(mapping|address|uint\d*|int\d*|bytes\d*|string|bool)\s+(?:public\s+|private\s+|internal\s+)?(\w+)\s*[;=]"@
}

pub open spec fn modifier_pattern() -> Seq<char> {
    r"modifier\s+(\w+)"@
}

/// What the regular expressions find in a source text, in the order in which they are
/// searched for; the first that is wrong ends it.
pub open spec fn solidity_matches(content: Seq<char>) -> Result<SolidityMatchesModel, Seq<char>> {
    match pattern::regex_captures(contract_pattern(), content) {
        Err(e) => Err(e),
        Ok(contracts) => match pattern::regex_captures(function_pattern(), content) {
            Err(e) => Err(e),
            Ok(functions) => match pattern::regex_captures(import_pattern(), content) {
                Err(e) => Err(e),
                Ok(imports) => match pattern::regex_captures(event_pattern(), content) {
                    Err(e) => Err(e),
                    Ok(events) => match pattern::regex_captures(state_pattern(), content) {
                        Err(e) => Err(e),
                        Ok(states) => match pattern::regex_captures(modifier_pattern(), content) {
                            Err(e) => Err(e),
                            Ok(modifiers) => Ok(
                                SolidityMatchesModel {
                                    contracts,
                                    functions,
                                    imports,
                                    events,
                                    states,
                                    modifiers,
                                },
                            ),
                        },
                    },
                },
            },
        },
    }
}

/// What is extracted from a source text.
pub open spec fn solidity_extraction(stem: Option<Seq<char>>, path: Seq<char>, content: Seq<char>) ->
    Result<ExtractedModuleModel, Seq<char>> {
    match solidity_matches(content) {
        Ok(found) => Ok(matched_module(stem, path, content, found)),
        Err(e) => Err(e),
    }
}

fn search_all(content: &str) -> (r: Result<SolidityMatches, String>)
    ensures
        crate::data::result_view(r) == solidity_matches(content@),
{
    let contracts = pattern::capture_all(r"(?:contract|interface|library)\s+(\w+)", content)?;
    let functions = pattern::capture_all(
        r"function\s+(\w+)\s*\(([^)]*)\)\s*((?:public|external|internal|private|view|pure|payable|virtual|override|\s)*)(?:returns\s*\(([^)]*)\))?",
        content,
    )?;
    let imports = pattern::capture_all(
        r#"import\s+(?:\{[^}]+\}\s+from\s+)?["']([^"']+)["']"#,
        content,
    )?;
    let events = pattern::capture_all(r"event\s+(\w+)", content)?;
    let states = pattern::capture_all(
        r"(?m)^\s*(mapping|address|uint\d*|int\d*|bytes\d*|string|bool)\s+(?:public\s+|private\s+|internal\s+)?(\w+)\s*[;=]",
        content,
    )?;
    let modifiers = pattern::capture_all(r"modifier\s+(\w+)", content)?;
    Ok(SolidityMatches { contracts, functions, imports, events, states, modifiers })
}

/// Extracts a module from a source text.
pub fn parse_solidity_regex(stem: Option<&str>, path: &str, content: &str) -> (r: Result<
    ExtractedModule,
    String,
>)
    ensures
        crate::data::result_view(r) == solidity_extraction(stem.deep_view(), path@, content@),
        r matches Ok(m) ==> m.wf(),
{
    let found = search_all(content)?;
    Ok(assemble_module(stem, path, content, &found))
}

// ─── The extractor ────────────────────────────────────────────────────────────

/// Extracts from Solidity sources.
#[derive(Debug, Clone, Copy)]
pub struct SolidityExtractor;

impl SolidityExtractor {
    pub fn new() -> (r: Self)
        ensures
            r == SolidityExtractor,
    {
        SolidityExtractor
    }
}

} // verus!

//! What is extracted from source files, and the extractors of the supported languages.
pub mod flow9;
pub mod flow9_ast;
pub mod flow9_contents;
pub mod flow9_spelled;
pub mod flow9_types;
pub mod rust;
pub mod rust_contents;
pub mod rust_syntax;
pub mod solidity;
pub mod solidity_contents;

use vstd::prelude::*;

use self::flow9::{checked_parse_flow9, flow9_extraction};
use self::rust::{parse_rust, rust_extraction};
use self::solidity::{
    extract_from_solc_output, named_module, parse_solidity_regex, solidity_extraction,
    solidity_module, with_nodes, AstNode, AstNodeModel,
};
use crate::data::{result_view, Duplicate, StringMap};
use crate::text;
use crate::types::{FunctionInfo, FunctionInfoModel, TypeInfo, TypeInfoModel};

pub use self::flow9::Flow9Extractor;
pub use self::rust::RustExtractor;
pub use self::solidity::SolidityExtractor;

verus! {

/// Information extracted from a source file.
#[derive(Debug)]
pub struct ExtractedModule {
    /// Module or contract name
    pub name: String,
    /// Programming language
    pub language: String,
    /// Source file path
    pub source_path: Option<String>,
    /// Public and external functions
    pub public_functions: Vec<String>,
    /// Private and internal functions
    pub private_functions: Vec<String>,
    /// Function signatures by name
    pub function_signatures: StringMap<String>,
    /// Imports and dependencies
    pub imports: Vec<String>,
    /// Events
    pub events: Vec<String>,
    /// State variables
    pub state_variables: Vec<String>,
    /// Modifiers (Solidity) or attributes (Rust)
    pub modifiers: Vec<String>,
    /// Type definitions (structs, enums, traits) by name
    pub type_definitions: StringMap<TypeInfo>,
    /// Parameters, return types and generics of functions by name
    pub function_info: StringMap<FunctionInfo>,
}

/// What a [`ExtractedModule`] holds.
#[verifier::ext_equal]
pub struct ExtractedModuleModel {
    pub name: Seq<char>,
    pub language: Seq<char>,
    pub source_path: Option<Seq<char>>,
    pub public_functions: Seq<Seq<char>>,
    pub private_functions: Seq<Seq<char>>,
    pub function_signatures: Seq<(Seq<char>, Seq<char>)>,
    pub imports: Seq<Seq<char>>,
    pub events: Seq<Seq<char>>,
    pub state_variables: Seq<Seq<char>>,
    pub modifiers: Seq<Seq<char>>,
    pub type_definitions: Seq<(Seq<char>, TypeInfoModel)>,
    pub function_info: Seq<(Seq<char>, FunctionInfoModel)>,
}

impl DeepView for ExtractedModule {
    type V = ExtractedModuleModel;

    open spec fn deep_view(&self) -> ExtractedModuleModel {
        ExtractedModuleModel {
            name: self.name.deep_view(),
            language: self.language.deep_view(),
            source_path: self.source_path.deep_view(),
            public_functions: self.public_functions.deep_view(),
            private_functions: self.private_functions.deep_view(),
            function_signatures: self.function_signatures.deep_view(),
            imports: self.imports.deep_view(),
            events: self.events.deep_view(),
            state_variables: self.state_variables.deep_view(),
            modifiers: self.modifiers.deep_view(),
            type_definitions: self.type_definitions.deep_view(),
            function_info: self.function_info.deep_view(),
        }
    }
}

impl Clone for ExtractedModule {
    fn clone(&self) -> (r: Self)
        ensures
            r.deep_view() == self.deep_view(),
    {
        self.duplicate()
    }
}

impl Duplicate for ExtractedModule {
    fn duplicate(&self) -> (r: Self) {
        ExtractedModule {
            name: self.name.duplicate(),
            language: self.language.duplicate(),
            source_path: self.source_path.duplicate(),
            public_functions: self.public_functions.duplicate(),
            private_functions: self.private_functions.duplicate(),
            function_signatures: self.function_signatures.duplicate(),
            imports: self.imports.duplicate(),
            events: self.events.duplicate(),
            state_variables: self.state_variables.duplicate(),
            modifiers: self.modifiers.duplicate(),
            type_definitions: self.type_definitions.duplicate(),
            function_info: self.function_info.duplicate(),
        }
    }
}

/// A module of which nothing is known.
pub open spec fn blank_module() -> ExtractedModuleModel {
    ExtractedModuleModel {
        name: Seq::empty(),
        language: Seq::empty(),
        source_path: None,
        public_functions: Seq::empty(),
        private_functions: Seq::empty(),
        function_signatures: Seq::empty(),
        imports: Seq::empty(),
        events: Seq::empty(),
        state_variables: Seq::empty(),
        modifiers: Seq::empty(),
        type_definitions: Seq::empty(),
        function_info: Seq::empty(),
    }
}

impl Default for ExtractedModule {
    fn default() -> (r: Self)
        ensures
            r.deep_view() == blank_module(),
    {
        let r = ExtractedModule {
            name: String::new(),
            language: String::new(),
            source_path: None,
            public_functions: Vec::new(),
            private_functions: Vec::new(),
            function_signatures: StringMap::new(),
            imports: Vec::new(),
            events: Vec::new(),
            state_variables: Vec::new(),
            modifiers: Vec::new(),
            type_definitions: StringMap::new(),
            function_info: StringMap::new(),
        };
        assert(r.deep_view() =~= blank_module());
        r
    }
}

impl ExtractedModule {
    /// Every map of the module has unique keys.
    pub open spec fn wf(&self) -> bool {
        self.function_signatures.wf() && self.type_definitions.wf() && self.function_info.wf()
    }
}

/// The name of a module: the stem of its file's name, where it has one that is text.
pub open spec fn module_name(stem: Option<Seq<char>>) -> Seq<char> {
    match stem {
        Some(name) => name,
        None => "unknown"@,
    }
}

/// A module of which only the file and the language are known.
pub open spec fn new_module(
    stem: Option<Seq<char>>,
    path: Seq<char>,
    language: Seq<char>,
) -> ExtractedModuleModel {
    ExtractedModuleModel {
        name: module_name(stem),
        language,
        source_path: Some(path),
        ..blank_module()
    }
}

pub(crate) fn start_module(stem: Option<&str>, path: &str, language: &str) -> (r: ExtractedModule)
    ensures
        r.deep_view() == new_module(stem.deep_view(), path@, language@),
        r.wf(),
{
    let mut r: ExtractedModule = Default::default();
    r.name = match stem {
        Some(name) => name.to_owned(),
        None => "unknown".to_owned(),
    };
    r.language = language.to_owned();
    r.source_path = Some(path.to_owned());
    r
}

// ─── Extractors ───────────────────────────────────────────────────────────────

/// A source file that was read, and the syntax trees that a compiler made of it, if one did.
#[derive(Debug)]
pub struct SourceFile {
    /// The stem of the file's name, where it is text
    pub stem: Option<String>,
    pub path: String,
    pub content: String,
    pub syntax_trees: Option<Vec<AstNode>>,
}

/// What a [`SourceFile`] holds.
#[verifier::ext_equal]
pub struct SourceFileModel {
    pub stem: Option<Seq<char>>,
    pub path: Seq<char>,
    pub content: Seq<char>,
    pub syntax_trees: Option<Seq<AstNodeModel>>,
}

impl DeepView for SourceFile {
    type V = SourceFileModel;

    open spec fn deep_view(&self) -> SourceFileModel {
        SourceFileModel {
            stem: self.stem.deep_view(),
            path: self.path@,
            content: self.content@,
            syntax_trees: self.syntax_trees.deep_view(),
        }
    }
}

impl SourceFile {
    fn stem_str(&self) -> (r: Option<&str>)
        ensures
            r.deep_view() == self.deep_view().stem,
    {
        match &self.stem {
            Some(s) => Some(s.as_str()),
            None => None,
        }
    }
}

/// Extraction for a language.
pub trait Extractor {
    /// What is extracted from a source file, or why nothing is. None where the file has no
    /// reading.
    spec fn extraction(&self, source: SourceFileModel) -> Option<
        Result<ExtractedModuleModel, Seq<char>>,
    >;

    /// Extracts a module from a source file, or says that the file has no reading.
    fn checked_extract(&self, source: &SourceFile) -> (r: Option<Result<ExtractedModule, String>>)
        ensures
            match r {
                Some(result) => self.extraction(source.deep_view()) == Some(result_view(result))
                    && (result matches Ok(m) ==> m.wf()),
                None => self.extraction(source.deep_view()) is None && !text::is_ascii(
                    source.content@,
                ),
            },
    ;

    /// Extracts a module from a source file. Every file of ASCII characters has a reading.
    fn extract(&self, source: &SourceFile) -> (r: Result<ExtractedModule, String>)
        requires
            text::is_ascii(source.content@) || self.extraction(source.deep_view()) is Some,
        ensures
            self.extraction(source.deep_view()) == Some(result_view(r)),
            r matches Ok(m) ==> m.wf(),
    ;
}

impl Extractor for Flow9Extractor {
    open spec fn extraction(&self, source: SourceFileModel) -> Option<
        Result<ExtractedModuleModel, Seq<char>>,
    > {
        flow9_extraction(source.stem, source.path, source.content)
    }

    fn checked_extract(&self, source: &SourceFile) -> (r: Option<Result<ExtractedModule, String>>) {
        checked_parse_flow9(source.stem_str(), source.path.as_str(), source.content.as_str())
    }

    fn extract(&self, source: &SourceFile) -> (r: Result<ExtractedModule, String>) {
        flow9::parse_flow9(source.stem_str(), source.path.as_str(), source.content.as_str())
    }
}

impl Extractor for RustExtractor {
    open spec fn extraction(&self, source: SourceFileModel) -> Option<
        Result<ExtractedModuleModel, Seq<char>>,
    > {
        Some(rust_extraction(source.stem, source.path, source.content))
    }

    fn checked_extract(&self, source: &SourceFile) -> (r: Option<Result<ExtractedModule, String>>) {
        Some(self.extract(source))
    }

    fn extract(&self, source: &SourceFile) -> (r: Result<ExtractedModule, String>) {
        parse_rust(source.stem_str(), source.path.as_str(), source.content.as_str())
    }
}

impl Extractor for SolidityExtractor {
    open spec fn extraction(&self, source: SourceFileModel) -> Option<
        Result<ExtractedModuleModel, Seq<char>>,
    > {
        match source.syntax_trees {
            Some(units) => Some(
                Ok(
                    named_module(
                        with_nodes(solidity_module(source.path), units, units.len() as int),
                        source.stem,
                    ),
                ),
            ),
            None => Some(solidity_extraction(source.stem, source.path, source.content)),
        }
    }

    fn checked_extract(&self, source: &SourceFile) -> (r: Option<Result<ExtractedModule, String>>) {
        Some(self.extract(source))
    }

    fn extract(&self, source: &SourceFile) -> (r: Result<ExtractedModule, String>) {
        match &source.syntax_trees {
            Some(units) => Ok(
                extract_from_solc_output(units, source.stem_str(), source.path.as_str()),
            ),
            None => parse_solidity_regex(
                source.stem_str(),
                source.path.as_str(),
                source.content.as_str(),
            ),
        }
    }
}

/// The extractor of one of the supported languages.
#[derive(Debug, Clone, Copy)]
pub enum AnyExtractor {
    Solidity(SolidityExtractor),
    Rust(RustExtractor),
    Flow9(Flow9Extractor),
}

impl Extractor for AnyExtractor {
    open spec fn extraction(&self, source: SourceFileModel) -> Option<
        Result<ExtractedModuleModel, Seq<char>>,
    > {
        match self {
            AnyExtractor::Solidity(x) => x.extraction(source),
            AnyExtractor::Rust(x) => x.extraction(source),
            AnyExtractor::Flow9(x) => x.extraction(source),
        }
    }

    fn checked_extract(&self, source: &SourceFile) -> (r: Option<Result<ExtractedModule, String>>) {
        match self {
            AnyExtractor::Solidity(x) => x.checked_extract(source),
            AnyExtractor::Rust(x) => x.checked_extract(source),
            AnyExtractor::Flow9(x) => x.checked_extract(source),
        }
    }

    fn extract(&self, source: &SourceFile) -> (r: Result<ExtractedModule, String>) {
        match self {
            AnyExtractor::Solidity(x) => x.extract(source),
            AnyExtractor::Rust(x) => x.extract(source),
            AnyExtractor::Flow9(x) => x.extract(source),
        }
    }
}

/// The extractor of a language, by its name or its usual suffix, however it is cased.
pub open spec fn extractor_of(language: Seq<char>) -> Option<AnyExtractor> {
    let name = text::lowercase(language);
    if name == "solidity"@ || name == "sol"@ {
        Some(AnyExtractor::Solidity(SolidityExtractor))
    } else if name == "rust"@ || name == "rs"@ {
        Some(AnyExtractor::Rust(RustExtractor))
    } else if name == "flow9"@ || name == "flow"@ {
        Some(AnyExtractor::Flow9(Flow9Extractor))
    } else {
        None
    }
}

/// Gets the extractor of a language.
pub fn get_extractor(language: &str) -> (r: Result<AnyExtractor, String>)
    ensures
        match r {
            Ok(x) => extractor_of(language@) == Some(x),
            Err(m) => extractor_of(language@) is None && m@ == "Unsupported language: "@
                + text::lowercase(language@) + ". Supported: solidity, rust, flow9"@,
        },
{
    let lower = language.to_lowercase();
    let name = lower.as_str();
    if text::same(name, "solidity") || text::same(name, "sol") {
        Ok(AnyExtractor::Solidity(SolidityExtractor))
    } else if text::same(name, "rust") || text::same(name, "rs") {
        Ok(AnyExtractor::Rust(RustExtractor))
    } else if text::same(name, "flow9") || text::same(name, "flow") {
        Ok(AnyExtractor::Flow9(Flow9Extractor))
    } else {
        let mut message = "Unsupported language: ".to_owned();
        message.append(name);
        message.append(". Supported: solidity, rust, flow9");
        Err(message)
    }
}

} // verus!

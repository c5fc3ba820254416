//! Writing specs for existing code: which files, in which language, and with what context.
use vstd::prelude::*;

use crate::ai_init::order::{extract_internal_deps, internal_deps};
use crate::ai_init::{dependency_context, format_dep_context, SpecEnrichment, SpecEnrichmentModel};
use crate::data::{append_item, lookup, result_view, StringMap};
use crate::extractors::{ExtractedModule, ExtractedModuleModel};
use crate::text;

verus! {

/// The language of files with an extension.
pub open spec fn language_of(extension: Seq<char>) -> Seq<char> {
    if extension == "sol"@ {
        "solidity"@
    } else if extension == "rs"@ {
        "rust"@
    } else if extension == "flow"@ {
        "flow9"@
    } else if extension == "ts"@ || extension == "tsx"@ {
        "typescript"@
    } else if extension == "js"@ || extension == "jsx"@ {
        "javascript"@
    } else {
        extension
    }
}

/// Detects the language of a file from its extension, where it has one.
pub fn detect_language(extension: Option<&str>) -> (r: Option<String>)
    ensures
        r.deep_view() == (match extension {
            Some(e) => Some(language_of(e@)),
            None => None,
        }),
{
    match extension {
        Some(e) => Some(
            if text::same(e, "sol") {
                "solidity".to_owned()
            } else if text::same(e, "rs") {
                "rust".to_owned()
            } else if text::same(e, "flow") {
                "flow9".to_owned()
            } else if text::same(e, "ts") || text::same(e, "tsx") {
                "typescript".to_owned()
            } else if text::same(e, "js") || text::same(e, "jsx") {
                "javascript".to_owned()
            } else {
                e.to_owned()
            },
        ),
        None => None,
    }
}

/// The language of a file: the one that is given, or else the one that was detected.
pub open spec fn file_language(
    given: Option<Seq<char>>,
    detected: Option<Seq<char>>,
) -> Result<Seq<char>, Seq<char>> {
    match given {
        Some(l) => Ok(l),
        None => match detected {
            Some(l) => Ok(l),
            None => Err("Could not detect language. Use --language flag."@),
        },
    }
}

/// Picks the language of a file.
pub fn pick_language(given: &Option<String>, detected: &Option<String>) -> (r: Result<
    String,
    String,
>)
    ensures
        result_view(r) == file_language(given.deep_view(), detected.deep_view()),
{
    match given {
        Some(l) => Ok(l.clone()),
        None => match detected {
            Some(l) => Ok(l.clone()),
            None => Err("Could not detect language. Use --language flag.".to_owned()),
        },
    }
}

/// The extensions of the files that are looked for in a directory.
pub open spec fn extensions_for(language: Option<Seq<char>>) -> Result<Seq<Seq<char>>, Seq<char>> {
    match language {
        Some(l) => if l == "flow9"@ || l == "flow"@ {
            Ok(seq!["flow"@])
        } else if l == "rust"@ || l == "rs"@ {
            Ok(seq!["rs"@])
        } else if l == "solidity"@ || l == "sol"@ {
            Ok(seq!["sol"@])
        } else {
            Err("Unsupported language: "@ + l)
        },
        None => Ok(seq!["flow"@, "rs"@, "sol"@]),
    }
}

fn one(extension: &str) -> (r: Vec<String>)
    ensures
        r.deep_view() == seq![extension@],
{
    let mut list: Vec<String> = Vec::new();
    append_item(&mut list, extension.to_owned());
    assert(list.deep_view() =~= seq![extension@]);
    list
}

/// Picks the extensions of the files that are looked for in a directory.
pub fn pick_extensions(language: Option<&str>) -> (r: Result<Vec<String>, String>)
    ensures
        result_view(r) == extensions_for(
            match language {
                Some(l) => Some(l@),
                None => None,
            },
        ),
{
    match language {
        Some(l) => if text::same(l, "flow9") || text::same(l, "flow") {
            Ok(one("flow"))
        } else if text::same(l, "rust") || text::same(l, "rs") {
            Ok(one("rs"))
        } else if text::same(l, "solidity") || text::same(l, "sol") {
            Ok(one("sol"))
        } else {
            let mut message = "Unsupported language: ".to_owned();
            message.append(l);
            Err(message)
        },
        None => {
            let mut all = one("flow");
            append_item(&mut all, "rs".to_owned());
            append_item(&mut all, "sol".to_owned());
            assert(all.deep_view() =~= seq!["flow"@, "rs"@, "sol"@]);
            Ok(all)
        },
    }
}

/// Whether there is anything in a module to be specified.
pub open spec fn has_interface(m: ExtractedModuleModel) -> bool {
    m.public_functions.len() > 0 || m.type_definitions.len() > 0
}

/// Whether a spec is written for a module.
pub fn is_worth_a_spec(extracted: &ExtractedModule) -> (b: bool)
    ensures
        b == has_interface(extracted.deep_view()),
{
    extracted.public_functions.len() > 0 || !extracted.type_definitions.is_empty()
}

/// Those of the first `k` names of which something is remembered.
pub open spec fn known_names(
    names: Seq<Seq<char>>,
    known: Seq<(Seq<char>, SpecEnrichmentModel)>,
    k: int,
) -> Seq<Seq<char>>
    decreases k,
{
    if k <= 0 || k > names.len() {
        Seq::empty()
    } else if lookup(known, names[k - 1]) is Some {
        known_names(names, known, k - 1).push(names[k - 1])
    } else {
        known_names(names, known, k - 1)
    }
}

/// What is remembered of the first `k` names.
pub open spec fn known_enrichments(
    names: Seq<Seq<char>>,
    known: Seq<(Seq<char>, SpecEnrichmentModel)>,
    k: int,
) -> Seq<SpecEnrichmentModel>
    decreases k,
{
    if k <= 0 || k > names.len() {
        Seq::empty()
    } else {
        match lookup(known, names[k - 1]) {
            Some(e) => known_enrichments(names, known, k - 1).push(e),
            None => known_enrichments(names, known, k - 1),
        }
    }
}

/// What is said of the dependencies of a file.
pub open spec fn dependency_note(names: Seq<Seq<char>>) -> Seq<char> {
    if names.len() == 0 {
        Seq::empty()
    } else {
        " (deps: "@ + text::join(names, ", "@) + ")"@
    }
}

/// Gives the context of a file, from what is remembered of the modules that it refers to, and
/// what is said of them.
pub fn file_context(source_code: &str, known: &StringMap<SpecEnrichment>) -> (r: (String, String))
    ensures
        ({
            let names = internal_deps(source_code@);
            let n = names.len() as int;
            &&& r.0@ == dependency_context(known_enrichments(names, known.deep_view(), n))
            &&& r.1@ == dependency_note(known_names(names, known.deep_view(), n))
        }),
{
    let names = extract_internal_deps(source_code);
    let mut found: Vec<String> = Vec::new();
    let mut enrichments: Vec<&SpecEnrichment> = Vec::new();
    let mut i: usize = 0;
    assert(found.deep_view() =~= Seq::empty());
    assert(enrichments.deep_view() =~= Seq::empty());
    while i < names.len()
        invariant
            i <= names@.len(),
            found.deep_view() == known_names(names.deep_view(), known.deep_view(), i as int),
            enrichments.deep_view() == known_enrichments(
                names.deep_view(),
                known.deep_view(),
                i as int,
            ),
        decreases names@.len() - i,
    {
        assert(names.deep_view()[i as int] == names@[i as int]@);
        match known.get(names[i].as_str()) {
            Some(e) => {
                append_item(&mut found, names[i].clone());
                append_item(&mut enrichments, e);
            },
            None => {},
        }
        i += 1;
    }
    let context = format_dep_context(enrichments.as_slice());
    let mut note: String = String::new();
    let count: usize = found.len();
    assert(count == found.deep_view().len());
    if count > 0 {
        note = " (deps: ".to_owned();
        note.append(text::join_strings(found.as_slice(), ", ").as_str());
        note.append(")");
    }
    (context, note)
}

/// What is said in the end.
pub open spec fn closing_text(count: nat, directory: Seq<char>, skipped: nat) -> Seq<char> {
    let done = "Generated "@ + text::decimal(count) + " spec file(s) in "@ + directory;
    if skipped > 0 {
        done + " ("@ + text::decimal(skipped) + " file(s) excluded)"@
    } else {
        done
    }
}

/// Says in the end how many specs were written, and how many files were excluded.
pub fn closing(count: usize, directory: &str, skipped: usize) -> (r: String)
    ensures
        r@ == closing_text(count as nat, directory@, skipped as nat),
{
    let mut s = "Generated ".to_owned();
    s.append(text::usize_string(count).as_str());
    s.append(" spec file(s) in ");
    s.append(directory);
    if skipped > 0 {
        s.append(" (");
        s.append(text::usize_string(skipped).as_str());
        s.append(" file(s) excluded)");
    }
    s
}

} // verus!

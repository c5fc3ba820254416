//! What becomes of a module whose source is missing or cannot be read, and the words of reports.
use vstd::prelude::*;

use super::module::{check_outcome, source_places, SourceLookupModel};
use super::{
    constraint_kind_text, messages, verification_tier_text, CheckResultModel, ConstraintKind,
    ConstraintResultModel, ConstraintSeverity, SpecCheckerModel, VerificationTier,
};
use crate::spec::ModuleSpecModel;
use crate::text;

verus! {

// ─── Outcomes ─────────────────────────────────────────────────────────────────

/// Whether a result is one error of the structure and nothing else.
pub open spec fn is_one_error(r: CheckResultModel) -> bool {
    &&& r.errors.len() == 1
    &&& r.warnings.len() == 0
    &&& r.constraint_results.len() == 1
    &&& r.constraint_results[0].message == r.errors[0]
    &&& r.constraint_results[0].kind == ConstraintKind::Structure
    &&& r.constraint_results[0].severity == ConstraintSeverity::Error
}

proof fn lemma_one_message(f: ConstraintResultModel)
    ensures
        messages(seq![f], ConstraintSeverity::Error) == if f.severity == ConstraintSeverity::Error {
            seq![f.message]
        } else {
            Seq::empty()
        },
        messages(seq![f], ConstraintSeverity::Warning) == if f.severity
            == ConstraintSeverity::Warning {
            seq![f.message]
        } else {
            Seq::empty()
        },
{
    reveal_with_fuel(messages, 2);
    assert(seq![f].drop_last() =~= Seq::empty());
    assert(Seq::<Seq<char>>::empty().push(f.message) =~= seq![f.message]);
}

/// A module whose source is not found has one error, which names the module, in whatever
/// language it is written.
pub proof fn missing_sources_are_errors(c: SpecCheckerModel, spec: ModuleSpecModel)
    ensures
        check_outcome(c, spec, SourceLookupModel::NotFound) matches Some(r) && is_one_error(r)
            && text::contains(r.errors[0], "'"@ + spec.module + "'"@),
{
    let r = check_outcome(c, spec, SourceLookupModel::NotFound)->Some_0;
    lemma_one_message(r.constraint_results[0]);
    let a = "Could not find source file for module '"@;
    let b = "'. Set source_path in spec."@;
    reveal_strlit("Could not find source file for module '");
    reveal_strlit("'. Set source_path in spec.");
    reveal_strlit("'");
    let quoted = "'"@ + spec.module + "'"@;
    let message = a + spec.module + b;
    assert(r.errors[0] =~= message);
    let i = a.len() - 1;
    assert(message.subrange(i, i + quoted.len()) =~= quoted);
    assert(text::occurs_at(message, quoted, i));
}

/// Whether a module is written in a language whose sources can be examined.
pub open spec fn has_examined_language(spec: ModuleSpecModel) -> bool {
    spec.language matches Some(l) && {
        let name = text::lowercase(l);
        name == "solidity"@ || name == "sol"@ || name == "rust"@ || name == "rs"@ || name
            == "flow9"@ || name == "flow"@
    }
}

/// A source that is found and cannot be read is one error, which tells the path and what went
/// wrong.
pub proof fn unreadable_sources_are_errors(
    c: SpecCheckerModel,
    spec: ModuleSpecModel,
    path: Seq<char>,
    error: Seq<char>,
)
    requires
        has_examined_language(spec),
    ensures
        check_outcome(c, spec, SourceLookupModel::Unreadable { path, error }) matches Some(r)
            && is_one_error(r) && text::ends_with(r.errors[0], path + ": "@ + error),
{
    let r = check_outcome(c, spec, SourceLookupModel::Unreadable { path, error })->Some_0;
    lemma_one_message(r.constraint_results[0]);
    let told = path + ": "@ + error;
    let message = "Failed to extract from "@ + path + ": "@ + error;
    assert(r.errors[0] =~= message);
    assert(message.subrange(message.len() - told.len(), message.len() as int) =~= told);
}

/// A module in a language whose sources cannot be examined is passed with one warning and
/// without findings.
pub proof fn other_languages_are_passed_over(
    c: SpecCheckerModel,
    spec: ModuleSpecModel,
    source: SourceLookupModel,
)
    requires
        spec.language is Some,
        !has_examined_language(spec),
        !(source is NotFound),
    ensures
        check_outcome(c, spec, source) matches Some(r) && r.errors.len() == 0 && r.warnings.len()
            == 1 && r.constraint_results.len() == 0 && text::contains(
            r.warnings[0],
            "'"@ + spec.language->Some_0 + "'"@,
        ),
{
    let l = spec.language->Some_0;
    let r = check_outcome(c, spec, source)->Some_0;
    let a = "No extractor for language '"@;
    let b = "'. Skipping implementation checks."@;
    reveal_strlit("No extractor for language '");
    reveal_strlit("'. Skipping implementation checks.");
    reveal_strlit("'");
    let quoted = "'"@ + l + "'"@;
    let message = a + l + b;
    assert(r.warnings[0] =~= message);
    let i = a.len() - 1;
    assert(message.subrange(i, i + quoted.len()) =~= quoted);
    assert(text::occurs_at(message, quoted, i));
}

// ─── Places ───────────────────────────────────────────────────────────────────

/// A source is looked for where the spec says, and nowhere else. Where it does not say, contracts
/// are looked for by the name of the module, Rust modules by its name in small letters and then
/// as the root of a crate, TypeScript modules by its name; modules in other languages nowhere.
pub proof fn sources_are_looked_for(spec: ModuleSpecModel, place: Seq<char>)
    ensures
        spec.source_path matches Some(p) ==> (source_places(spec).contains(place) <==> place == p),
        spec.source_path is None && spec.language == Some("solidity"@) ==> (source_places(
            spec,
        ).contains(place) <==> place == "contracts/"@ + spec.module + ".sol"@ || place == "src/"@
            + spec.module + ".sol"@ || place == spec.module + ".sol"@),
        spec.source_path is None && spec.language == Some("rust"@) ==> (source_places(
            spec,
        ).contains(place) <==> place == "src/"@ + text::lowercase(spec.module) + ".rs"@ || place
            == "src/lib.rs"@ || place == "src/main.rs"@) && source_places(spec)[0] == "src/"@
            + text::lowercase(spec.module) + ".rs"@,
        spec.source_path is None && spec.language == Some("typescript"@) ==> (source_places(
            spec,
        ).contains(place) <==> place == "src/"@ + spec.module + ".ts"@ || place == spec.module
            + ".ts"@),
        spec.source_path is None && spec.language != Some("solidity"@) && spec.language != Some(
            "rust"@,
        ) && spec.language != Some("typescript"@) ==> source_places(spec).len() == 0,
{
    let places = source_places(spec);
    reveal_strlit("solidity");
    reveal_strlit("rust");
    reveal_strlit("typescript");
    assert("solidity"@.len() == 8 && "rust"@.len() == 4 && "typescript"@.len() == 10);
    if places.len() > 0 {
        assert(places.contains(places[0]));
    }
    if places.len() > 1 {
        assert(places.contains(places[1]));
    }
    if places.len() > 2 {
        assert(places.contains(places[2]));
    }
    if places.contains(place) {
        let k = choose|k: int| 0 <= k < places.len() && places[k] == place;
        assert(k == 0 || k == 1 || k == 2);
    }
}

// ─── Words ────────────────────────────────────────────────────────────────────

/// The word for each kind of constraint; no two kinds have the same.
pub proof fn kinds_have_words(a: ConstraintKind, b: ConstraintKind)
    ensures
        constraint_kind_text(ConstraintKind::Structure) == "structural"@,
        constraint_kind_text(ConstraintKind::Dependency) == "dependency"@,
        constraint_kind_text(ConstraintKind::Architectural) == "architectural"@,
        constraint_kind_text(ConstraintKind::Event) == "event"@,
        constraint_kind_text(ConstraintKind::TypeConstraint) == "type-constraint"@,
        constraint_kind_text(ConstraintKind::Protocol) == "protocol"@,
        a != b ==> constraint_kind_text(a) != constraint_kind_text(b),
{
    reveal_strlit("structural");
    reveal_strlit("dependency");
    reveal_strlit("architectural");
    reveal_strlit("event");
    reveal_strlit("type-constraint");
    reveal_strlit("protocol");
    assert("structural"@[0] == 's' && "dependency"@[0] == 'd' && "architectural"@[0] == 'a');
    assert("event"@[0] == 'e' && "type-constraint"@[0] == 't' && "protocol"@[0] == 'p');
}

/// The word for each tier of verification; no two tiers have the same.
pub proof fn tiers_have_words(a: VerificationTier, b: VerificationTier)
    ensures
        verification_tier_text(VerificationTier::Syntactic) == "syntactic"@,
        verification_tier_text(VerificationTier::RulesEngine) == "rules-engine"@,
        verification_tier_text(VerificationTier::TypeFormula) == "type-formula"@,
        verification_tier_text(VerificationTier::Smt) == "smt"@,
        a != b ==> verification_tier_text(a) != verification_tier_text(b),
{
    reveal_strlit("syntactic");
    reveal_strlit("rules-engine");
    reveal_strlit("type-formula");
    reveal_strlit("smt");
    assert("syntactic"@.len() == 9 && "smt"@.len() == 3);
    assert("rules-engine"@[0] == 'r' && "type-formula"@[0] == 't');
}

} // verus!

//! What a Flow9 module exports.
use vstd::prelude::*;

use super::decls::{
    declarations_from, declared_name, empty_module, export_block_at, header_from, module_of,
    path_statement_at, recovery, toplevel_at, with_export, with_exports, with_forbid, with_import,
};
use super::scan::{blanks_end, char_at, keyword_at, FailureModel};
use crate::data::lemma_with_name;
use crate::extractors::flow9_ast::{DeclModel, Flow9ModuleModel};

verus! {

/// Whether a declaration is marked as exported.
pub open spec fn is_exported(d: DeclModel) -> bool {
    match d {
        DeclModel::Function { exported, .. } => exported,
        DeclModel::FunctionDecl { exported, .. } => exported,
        DeclModel::StructDecl { exported, .. } => exported,
        DeclModel::VarDecl { exported, .. } => exported,
        DeclModel::Assign { exported, .. } => exported,
        _ => false,
    }
}

/// Whether one of some declarations declares a name.
pub open spec fn declares(decls: Seq<DeclModel>, name: Seq<char>) -> bool {
    exists|k: int| 0 <= k < decls.len() && declared_name(#[trigger] decls[k]) == Some(name)
}

/// The declarations of the export block whose keyword stands at a position; none if there is
/// no such block.
pub open spec fn block_declarations(s: Seq<char>, at: int) -> Seq<DeclModel> {
    if keyword_at(s, at, "export"@) {
        match export_block_at(s, at + 6) {
            Ok((decls, _)) => decls,
            Err(_) => Seq::empty(),
        }
    } else {
        Seq::empty()
    }
}

/// Whether a name is declared in an export block of a source text.
pub open spec fn declared_in_block(s: Seq<char>, name: Seq<char>) -> bool {
    exists|at: int| declares(#[trigger] block_declarations(s, at), name)
}

/// Whether the names of all exported declarations are listed as exports, and all exports are
/// declared in an export block.
pub open spec fn exports_are_sound(s: Seq<char>, m: Flow9ModuleModel) -> bool {
    &&& forall|k: int|
        0 <= k < m.declarations.len() && is_exported(#[trigger] m.declarations[k])
            ==> m.exports.contains(declared_name(m.declarations[k])->Some_0)
    &&& forall|k: int|
        0 <= k < m.exports.len() ==> declared_in_block(s, #[trigger] m.exports[k])
}

/// A declaration outside export blocks is not marked as exported.
proof fn lemma_not_exported(s: Seq<char>, at: int)
    ensures
        toplevel_at(s, at, false) matches Ok((d, _)) ==> !is_exported(d),
{
}

proof fn lemma_with_export(s: Seq<char>, m: Flow9ModuleModel, d: DeclModel)
    requires
        exports_are_sound(s, m),
        declared_name(d) matches Some(name) ==> declared_in_block(s, name),
    ensures
        exports_are_sound(s, with_export(m, d)),
{
    let after = with_export(m, d);
    if let Some(name) = declared_name(d) {
        lemma_with_name(m.exports, name);
    }
    assert forall|k: int|
        0 <= k < after.declarations.len() && is_exported(
            #[trigger] after.declarations[k],
        ) implies after.exports.contains(declared_name(after.declarations[k])->Some_0) by {
        if k < m.declarations.len() {
            assert(after.declarations[k] == m.declarations[k]);
        }
    }
    assert forall|k: int| 0 <= k < after.exports.len() implies declared_in_block(
        s,
        #[trigger] after.exports[k],
    ) by {
        if k < m.exports.len() {
            assert(after.exports[k] == m.exports[k]);
        }
    }
}

proof fn lemma_with_exports(s: Seq<char>, at: int, m: Flow9ModuleModel, decls: Seq<DeclModel>, k: int)
    requires
        exports_are_sound(s, m),
        decls == block_declarations(s, at),
        0 <= k <= decls.len(),
    ensures
        exports_are_sound(s, with_exports(m, decls.take(k))),
    decreases k,
{
    if k > 0 {
        lemma_with_exports(s, at, m, decls, k - 1);
        assert(decls.take(k).drop_last() =~= decls.take(k - 1));
        let d = decls[k - 1];
        assert(decls.take(k).last() == d);
        if let Some(name) = declared_name(d) {
            assert(declares(block_declarations(s, at), name));
        }
        lemma_with_export(s, with_exports(m, decls.take(k - 1)), d);
    }
}

/// A declaration that is not exported changes nothing.
proof fn lemma_plain_declaration(
    s: Seq<char>,
    m: Flow9ModuleModel,
    after: Flow9ModuleModel,
    d: DeclModel,
)
    requires
        exports_are_sound(s, m),
        !is_exported(d),
        after.declarations == m.declarations.push(d),
        after.exports == m.exports,
    ensures
        exports_are_sound(s, after),
{
    assert forall|k: int|
        0 <= k < after.declarations.len() && is_exported(
            #[trigger] after.declarations[k],
        ) implies after.exports.contains(declared_name(after.declarations[k])->Some_0) by {
        if k < m.declarations.len() {
            assert(after.declarations[k] == m.declarations[k]);
        }
    }
}

proof fn lemma_header(s: Seq<char>, at: int, m: Flow9ModuleModel)
    requires
        exports_are_sound(s, m),
    ensures
        header_from(s, at, m) matches Ok((after, _)) ==> exports_are_sound(s, after),
    decreases s.len() - at,
{
    let p = blanks_end(s, at);
    if p >= s.len() {
    } else if keyword_at(s, p, "import"@) {
        if let Ok((path, n)) = path_statement_at(s, p + 6) {
            if at < n <= s.len() {
                lemma_plain_declaration(s, m, with_import(m, path), DeclModel::Import(path));
                lemma_header(s, n, with_import(m, path));
            }
        }
    } else if keyword_at(s, p, "require"@) {
        if let Ok((path, n)) = path_statement_at(s, p + 7) {
            if at < n <= s.len() {
                lemma_header(s, n, m);
            }
        }
    } else if keyword_at(s, p, "export"@) {
        if let Ok((decls, n)) = export_block_at(s, p + 6) {
            if at < n <= s.len() {
                lemma_with_exports(s, p, m, decls, decls.len() as int);
                assert(decls.take(decls.len() as int) =~= decls);
                lemma_header(s, n, with_exports(m, decls));
            }
        }
    } else if keyword_at(s, p, "forbid"@) {
        if let Ok((path, n)) = path_statement_at(s, p + 6) {
            if at < n <= s.len() {
                lemma_plain_declaration(s, m, with_forbid(m, path), DeclModel::Forbid(path));
                lemma_header(s, n, with_forbid(m, path));
            }
        }
    }
}

proof fn lemma_declarations(s: Seq<char>, at: int, m: Flow9ModuleModel)
    requires
        exports_are_sound(s, m),
    ensures
        declarations_from(s, at, m.declarations) matches Ok(declarations) ==> exports_are_sound(
            s,
            Flow9ModuleModel { declarations, ..m },
        ),
    decreases s.len() - at,
{
    let p = blanks_end(s, at);
    if p < s.len() {
        lemma_not_exported(s, p);
        match toplevel_at(s, p, false) {
            Ok((d, n)) => {
                if at < n <= s.len() {
                    let after = Flow9ModuleModel { declarations: m.declarations.push(d), ..m };
                    lemma_plain_declaration(s, m, after, d);
                    lemma_declarations(s, n, after);
                }
            },
            Err(FailureModel::Error(_, e)) => {
                if e < s.len() && at < recovery(s, e) <= s.len() {
                    lemma_declarations(s, recovery(s, e), m);
                }
            },
            Err(FailureModel::Stuck) => {},
        }
    }
}

/// In every module that is read, the exports are the names that its export blocks declare, and
/// hold the name of each declaration that is marked as exported.
pub proof fn exports_are_declared_in_blocks(s: Seq<char>)
    ensures
        module_of(s) matches Ok(m) ==> exports_are_sound(s, m),
{
    reveal(module_of);
    let start: int = if char_at(s, 0) == Some('\u{FEFF}') {
        1
    } else {
        0
    };
    lemma_header(s, start, empty_module());
    if let Ok((m, n)) = header_from(s, start, empty_module()) {
        lemma_declarations(s, n, m);
    }
}

} // verus!

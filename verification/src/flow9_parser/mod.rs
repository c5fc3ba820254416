//! Recursive descent parser for Flow9 source files.
//!
//! Comments must have been stripped from the source.
pub mod declared;
pub mod decls;
pub mod exports;
pub mod scan;
pub mod types;
pub mod written;

use vstd::prelude::*;

use self::decls::{module_of, parse_module};
use self::scan::{is_narrow, Failure, FailureModel};
use crate::data::result_view;
use crate::extractors::flow9_ast::{Flow9Module, Flow9ModuleModel};
use crate::text;

verus! {

/// What reading a source text ends in: the module, or what was expected in its header.
/// Texts of which there is no reading are left out.
pub open spec fn source_reading(s: Seq<char>) -> Option<Result<Flow9ModuleModel, Seq<char>>> {
    match module_of(s) {
        Ok(m) => Some(Ok(m)),
        Err(FailureModel::Error(message, _)) => Some(Err(message)),
        Err(FailureModel::Stuck) => None,
    }
}

/// Parses a source text, or says that it has no reading: some number of bytes to be compared
/// or shown ends inside a character.
pub fn checked_parse_flow9_source(input: &str) -> (r: Option<Result<Flow9Module, String>>)
    ensures
        match r {
            Some(read) => source_reading(input@) == Some(result_view(read)),
            None => source_reading(input@) is None && !text::is_ascii(input@),
        },
{
    let chars = text::chars_of(input);
    match parse_module(chars.as_slice()) {
        Ok(m) => Some(Ok(m)),
        Err(Failure::Error(message, _)) => Some(Err(message)),
        Err(Failure::Stuck) => {
            proof {
                reveal(is_narrow);
            }
            None
        },
    }
}

/// Parses a source text. Every text of ASCII characters has a reading.
pub fn parse_flow9_source(input: &str) -> (r: Result<Flow9Module, String>)
    requires
        text::is_ascii(input@) || source_reading(input@) is Some,
    ensures
        source_reading(input@) == Some(result_view(r)),
{
    match checked_parse_flow9_source(input) {
        Some(r) => r,
        None => Err(String::new()),
    }
}

} // verus!

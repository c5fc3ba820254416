//! Specification checking for source modules: what a module declares about itself is
//! compared with what its source code shows.
pub mod ai_init;
pub mod ai_refine;
pub mod behavioral;
pub mod builtin_rules;
pub mod checker;
pub mod commands;
pub mod config;
pub mod data;
pub mod dependency;
pub mod extractors;
pub mod flow9_parser;
pub mod graph;
pub mod hash;
pub mod inheritance;
pub mod pattern;
pub mod projects;
pub mod rule_language;
pub mod rules;
pub mod smt;
pub mod solver;
pub mod spec;
pub mod text;
pub mod texts;
pub mod type_formula;
pub mod types;
pub mod wording;

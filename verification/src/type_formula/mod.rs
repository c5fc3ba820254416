//! Type formulas: constraints on types and signatures, written as text, read into a
//! [`Formula`] and evaluated against what was extracted from the source code.
pub mod ast;
pub mod bare;
pub mod eval;
pub mod meaning;
pub mod parser;
pub mod spelled;
pub mod tokens;
pub mod type_reader;
pub mod written;

pub use self::ast::{EvalError, Formula, ParamRef, ParseError, Predicate, TypeExpr};
pub use self::eval::{evaluate_formula, TypeEvalContext};
pub use self::parser::{checked_parse_formula, parse_formula};
pub use self::type_reader::{checked_parse_type_repr_from_str, parse_type_repr_from_str};

//! Mog's compiler front end, verified: the lexer, the parser with the
//! grammar it accepts, `.mogdecl` capability declarations, the module
//! system's file formats and import-cycle check, semantic analysis of
//! names, scopes and control flow with its symbol table and built-ins, and
//! the pure parts of the benchmark suite.

use vstd::prelude::*;

pub mod analyzer;
pub mod ast;
pub mod bench;
pub mod capability;
pub mod compiler;
pub mod described;
pub mod grammar;
pub mod lexer;
pub mod lexer_spec;
pub mod module;
pub mod parser;
pub mod scope_rules;
pub mod syntax;
pub mod text;
pub mod token;
pub mod type_names;
pub mod types;

verus! {

} // verus!

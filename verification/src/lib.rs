//! A compiler front end for a small expression language: a lexer that turns
//! source text into tokens, a recursive-descent parser that builds an abstract
//! syntax tree, and a lowering engine that translates function declarations
//! into a control-flow-graph intermediate representation with basic blocks and
//! phi nodes, checked for structural well-formedness before it is handed to a
//! code-generation backend.

pub mod ast;
pub mod ir;
pub mod lexer;
pub mod parser;
pub mod token;
pub mod translator;

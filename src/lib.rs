//! Scanner, parser and tree-walking evaluator for a small scripting language.
pub mod interpreter;
pub mod parser;
